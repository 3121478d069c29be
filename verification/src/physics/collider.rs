//! The collision registry: which pairs of objects are tested each tick, in
//! which order, by which overlap test, and the events that the tests yield.

use crate::physics::collision_properties::{CollisionBody, CollisionProperties};
use vstd::prelude::*;

verus! {

/// A collidable object as the registry sees it: who it is, and its collision
/// properties.
#[derive(Debug, Clone, Copy, PartialEq, Eq)]
pub struct Collider {
    pub entity: u64,
    pub properties: CollisionProperties,
}

/// The overlap test that a pair of outlines calls for.
#[derive(Debug, Clone, Copy, PartialEq, Eq, Structural)]
pub enum ShapeTest {
    RectRect,
    RectCircle,
    CircleCircle,
}

/// A pair of objects that has passed the category filter and awaits its
/// overlap test. `first` and `second` are the rows of the two objects in the
/// table of colliders, in the order in which the test takes them; `collidees`
/// holds their entities in that same order.
#[derive(Debug, Clone, Copy, PartialEq, Eq)]
pub struct Candidate {
    pub first: usize,
    pub second: usize,
    pub collidees: [u64; 2],
    pub test: ShapeTest,
}

/// Two objects may collide when each one's mask holds a category that the
/// other belongs to.
pub open spec fn spec_may_collide(a: CollisionProperties, b: CollisionProperties) -> bool {
    a.mask.intersects(b.group) && b.mask.intersects(a.group)
}

/// Whether two objects pass the category filter: each one's mask must hold a
/// category that the other belongs to.
#[verifier::when_used_as_spec(spec_may_collide)]
pub fn may_collide(a: CollisionProperties, b: CollisionProperties) -> (r: bool)
    ensures
        r == spec_may_collide(a, b),
{
    a.mask.contains(&b.group) && b.mask.contains(&a.group)
}

/// The category filter does not depend on the order of the two objects.
pub proof fn lemma_may_collide_is_mutual(a: CollisionProperties, b: CollisionProperties)
    ensures
        spec_may_collide(a, b) == spec_may_collide(b, a),
{
}

/// Whether a pair changes places before its test. Only a circle followed by
/// a rectangle does, so that the mixed test always gets the rectangle first.
pub open spec fn spec_swapped(a: CollisionBody, b: CollisionBody) -> bool {
    a == CollisionBody::Circle && b == CollisionBody::Rect
}

/// Whether a pair changes places before its test. Only a circle followed by
/// a rectangle does, so that the mixed test always gets the rectangle first.
#[verifier::when_used_as_spec(spec_swapped)]
pub fn swapped(a: CollisionBody, b: CollisionBody) -> (r: bool)
    ensures
        r == spec_swapped(a, b),
{
    match (a, b) {
        (CollisionBody::Circle, CollisionBody::Rect) => true,
        _ => false,
    }
}

/// The overlap test for a pair of outlines, in either order.
pub open spec fn spec_shape_test(a: CollisionBody, b: CollisionBody) -> ShapeTest {
    if a == CollisionBody::Rect && b == CollisionBody::Rect {
        ShapeTest::RectRect
    } else if a == CollisionBody::Circle && b == CollisionBody::Circle {
        ShapeTest::CircleCircle
    } else {
        ShapeTest::RectCircle
    }
}

/// The overlap test for a pair of outlines, in either order.
#[verifier::when_used_as_spec(spec_shape_test)]
pub fn shape_test(a: CollisionBody, b: CollisionBody) -> (test: ShapeTest)
    ensures
        test == spec_shape_test(a, b),
{
    match (a, b) {
        (CollisionBody::Rect, CollisionBody::Rect) => ShapeTest::RectRect,
        (CollisionBody::Circle, CollisionBody::Circle) => ShapeTest::CircleCircle,
        (CollisionBody::Rect, CollisionBody::Circle) => ShapeTest::RectCircle,
        (CollisionBody::Circle, CollisionBody::Rect) => ShapeTest::RectCircle,
    }
}

/// The candidate that rows `i < j` of `colliders` make.
pub open spec fn candidate_of(colliders: Seq<Collider>, i: int, j: int) -> Candidate {
    let a = colliders[i];
    let b = colliders[j];
    if spec_swapped(a.properties.body, b.properties.body) {
        Candidate {
            first: j as usize,
            second: i as usize,
            collidees: [b.entity, a.entity],
            test: spec_shape_test(a.properties.body, b.properties.body),
        }
    } else {
        Candidate {
            first: i as usize,
            second: j as usize,
            collidees: [a.entity, b.entity],
            test: spec_shape_test(a.properties.body, b.properties.body),
        }
    }
}

/// The pairs that row `i` makes with each later row below `n`, nearest first.
pub open spec fn row_pairs(i: int, n: int) -> Seq<(int, int)> {
    Seq::new((n - i - 1) as nat, |k: int| (i, i + 1 + k))
}

/// The pairs that the first `rows` rows make with later rows below `n`, row
/// by row.
pub open spec fn pairs_of_rows(rows: int, n: int) -> Seq<(int, int)>
    decreases rows,
{
    if rows <= 0 {
        Seq::empty()
    } else {
        pairs_of_rows(rows - 1, n) + row_pairs(rows - 1, n)
    }
}

/// The test that keeps a pair of rows: the two objects may collide.
pub open spec fn passes(colliders: Seq<Collider>) -> spec_fn((int, int)) -> bool {
    |p: (int, int)| spec_may_collide(colliders[p.0].properties, colliders[p.1].properties)
}

/// The step from a pair of rows to its candidate.
pub open spec fn to_candidate(colliders: Seq<Collider>) -> spec_fn((int, int)) -> Candidate {
    |p: (int, int)| candidate_of(colliders, p.0, p.1)
}

/// The candidates among a sequence of pairs of rows, in the order of the
/// pairs.
pub open spec fn candidates_among(colliders: Seq<Collider>, pairs: Seq<(int, int)>) -> Seq<
    Candidate,
> {
    pairs.filter(passes(colliders)).map_values(to_candidate(colliders))
}

/// The candidates of a table of colliders: every pair of rows `i < j` whose
/// objects may collide, in the order (0,1), (0,2), .., (1,2), ..
pub open spec fn candidates_of(colliders: Seq<Collider>) -> Seq<Candidate> {
    candidates_among(colliders, pairs_of_rows(colliders.len() as int, colliders.len() as int))
}

/// Pushing one more pair adds its candidate if the pair passes, and nothing
/// otherwise.
proof fn lemma_candidates_among_push(colliders: Seq<Collider>, pairs: Seq<(int, int)>, p: (int, int))
    ensures
        candidates_among(colliders, pairs.push(p)) == if passes(colliders)(p) {
            candidates_among(colliders, pairs).push(to_candidate(colliders)(p))
        } else {
            candidates_among(colliders, pairs)
        },
{
    pairs.lemma_filter_push(p, passes(colliders));
    if passes(colliders)(p) {
        pairs.filter(passes(colliders)).lemma_push_map_commute(to_candidate(colliders), p);
    }
}

/// Lists the pairs of objects to test this tick: every pair of rows whose
/// objects may collide, each once, row by row, with the operands in the
/// order in which the overlap test takes them.
pub fn collision_candidates(colliders: &Vec<Collider>) -> (out: Vec<Candidate>)
    ensures
        out@ == candidates_of(colliders@),
{
    let n = colliders.len();
    let mut out: Vec<Candidate> = Vec::new();
    let mut i: usize = 0;
    proof {
        reveal_with_fuel(Seq::filter, 1);
        assert(candidates_among(colliders@, pairs_of_rows(0, n as int)) =~= Seq::empty());
    }
    while i < n
        invariant
            i <= n,
            n == colliders.len(),
            out@ == candidates_among(colliders@, pairs_of_rows(i as int, n as int)),
        decreases n - i,
    {
        let mut j: usize = i + 1;
        let ghost row = row_pairs(i as int, n as int);
        let ghost done = pairs_of_rows(i as int, n as int);
        proof {
            assert(done + row.take(0) =~= done);
        }
        while j < n
            invariant
                i < j <= n,
                n == colliders.len(),
                row == row_pairs(i as int, n as int),
                done == pairs_of_rows(i as int, n as int),
                out@ == candidates_among(colliders@, done + row.take(j - i - 1)),
            decreases n - j,
        {
            let a = colliders[i];
            let b = colliders[j];
            proof {
                let k = j - i - 1;
                let p = (i as int, j as int);
                assert(row[k] == p);
                row.lemma_take_succ_push(k);
                assert(done + row.take(k).push(p) =~= (done + row.take(k)).push(p));
                lemma_candidates_among_push(colliders@, done + row.take(k), p);
            }
            if may_collide(a.properties, b.properties) {
                if swapped(a.properties.body, b.properties.body) {
                    out.push(
                        Candidate {
                            first: j,
                            second: i,
                            collidees: [b.entity, a.entity],
                            test: shape_test(a.properties.body, b.properties.body),
                        },
                    );
                } else {
                    out.push(
                        Candidate {
                            first: i,
                            second: j,
                            collidees: [a.entity, b.entity],
                            test: shape_test(a.properties.body, b.properties.body),
                        },
                    );
                }
            }
            j += 1;
        }
        proof {
            row.lemma_take_len();
            assert(row.take(n - i - 1) == row);
        }
        i += 1;
    }
    out
}

/// The order in which pairs of rows are listed: by the first row, then by
/// the second.
pub open spec fn precedes(p: (int, int), q: (int, int)) -> bool {
    p.0 < q.0 || (p.0 == q.0 && p.1 < q.1)
}

/// Whether each element of `pairs` precedes every later one.
pub open spec fn ascending(pairs: Seq<(int, int)>) -> bool {
    forall|x: int, y: int| 0 <= x < y < pairs.len() ==> precedes(#[trigger] pairs[x], #[trigger] pairs[y])
}

/// The pairs of the first `rows` rows are exactly the pairs `(i, j)` with
/// `i < rows` and `i < j < n`, in ascending order.
pub proof fn lemma_pairs_of_rows(rows: int, n: int)
    requires
        0 <= rows <= n,
    ensures
        forall|x: int|
            0 <= x < pairs_of_rows(rows, n).len() ==> {
                let p = #[trigger] pairs_of_rows(rows, n)[x];
                0 <= p.0 < rows && p.0 < p.1 < n
            },
        forall|i: int, j: int|
            0 <= i < rows && i < j < n ==> #[trigger] pairs_of_rows(rows, n).contains((i, j)),
        ascending(pairs_of_rows(rows, n)),
    decreases rows,
{
    if rows > 0 {
        lemma_pairs_of_rows(rows - 1, n);
        let earlier = pairs_of_rows(rows - 1, n);
        let row = row_pairs(rows - 1, n);
        let all = pairs_of_rows(rows, n);
        assert(all == earlier + row);
        assert forall|i: int, j: int| 0 <= i < rows && i < j < n implies #[trigger] all.contains(
            (i, j),
        ) by {
            if i < rows - 1 {
                assert(earlier.contains((i, j)));
                let x = choose|x: int| 0 <= x < earlier.len() && earlier[x] == (i, j);
                assert(all[x] == (i, j));
            } else {
                let k = j - i - 1;
                assert(row[k] == (i, j));
                assert(all[earlier.len() + k] == (i, j));
            }
        }
        assert forall|x: int, y: int| 0 <= x < y < all.len() implies precedes(
            #[trigger] all[x],
            #[trigger] all[y],
        ) by {
            if y < earlier.len() {
                assert(all[x] == earlier[x] && all[y] == earlier[y]);
            } else if x < earlier.len() {
                assert(all[x] == earlier[x]);
                assert(all[y] == row[y - earlier.len()]);
            } else {
                assert(all[x] == row[x - earlier.len()]);
                assert(all[y] == row[y - earlier.len()]);
            }
        }
    }
}

/// A filter keeps the order of what it lets through.
proof fn lemma_filter_ascending(pairs: Seq<(int, int)>, keep: spec_fn((int, int)) -> bool)
    requires
        ascending(pairs),
    ensures
        ascending(pairs.filter(keep)),
    decreases pairs.len(),
{
    reveal(Seq::filter);
    if pairs.len() > 0 {
        let front = pairs.drop_last();
        assert forall|x: int, y: int| 0 <= x < y < front.len() implies precedes(
            #[trigger] front[x],
            #[trigger] front[y],
        ) by {
            assert(front[x] == pairs[x] && front[y] == pairs[y]);
        }
        lemma_filter_ascending(front, keep);
        let kept = front.filter(keep);
        if keep(pairs.last()) {
            let all = pairs.filter(keep);
            assert(all == kept.push(pairs.last()));
            assert forall|x: int, y: int| 0 <= x < y < all.len() implies precedes(
                #[trigger] all[x],
                #[trigger] all[y],
            ) by {
                if y < kept.len() {
                    assert(all[x] == kept[x] && all[y] == kept[y]);
                } else {
                    assert(kept.contains(kept[x]));
                    front.lemma_filter_contains_rev(keep, kept[x]);
                    let z = choose|z: int| 0 <= z < front.len() && front[z] == kept[x];
                    assert(pairs[z] == kept[x]);
                    assert(precedes(pairs[z], pairs[pairs.len() - 1]));
                }
            }
        }
    }
}

/// The pairs of rows that the candidates of a table stand for, in order.
pub open spec fn candidate_pairs(colliders: Seq<Collider>) -> Seq<(int, int)> {
    pairs_of_rows(colliders.len() as int, colliders.len() as int).filter(passes(colliders))
}

/// Every candidate stands for two rows `i < j` of the table whose objects
/// may collide, and is the candidate that those rows make.
pub proof fn lemma_candidate_sound(colliders: Seq<Collider>, k: int)
    requires
        0 <= k < candidates_of(colliders).len(),
    ensures
        candidate_pairs(colliders).len() == candidates_of(colliders).len(),
        ({
            let (i, j) = candidate_pairs(colliders)[k];
            &&& 0 <= i < j < colliders.len()
            &&& spec_may_collide(colliders[i].properties, colliders[j].properties)
            &&& candidates_of(colliders)[k] == candidate_of(colliders, i, j)
        }),
{
    let n = colliders.len() as int;
    let all = pairs_of_rows(n, n);
    lemma_pairs_of_rows(n, n);
    all.lemma_filter_pred(passes(colliders), k);
    let p = candidate_pairs(colliders)[k];
    assert(candidate_pairs(colliders).contains(p));
    all.lemma_filter_contains_rev(passes(colliders), p);
    let x = choose|x: int| 0 <= x < all.len() && all[x] == p;
    assert(all[x] == p);
}

/// The operands of a candidate suit its test: the mixed test gets the
/// rectangle first and the circle second, whichever came first in the
/// table; the other two tests get two outlines of a kind, in the order of
/// the table. The candidate names the entities of its two rows.
pub proof fn lemma_operands_suit_the_test(colliders: Seq<Collider>, k: int)
    requires
        0 <= k < candidates_of(colliders).len(),
        colliders.len() <= usize::MAX,
    ensures
        ({
            let c = candidates_of(colliders)[k];
            let first = colliders[c.first as int];
            let second = colliders[c.second as int];
            &&& c.first < colliders.len() && c.second < colliders.len()
            &&& c.collidees[0] == first.entity && c.collidees[1] == second.entity
            &&& match c.test {
                ShapeTest::RectRect => first.properties.body == CollisionBody::Rect
                    && second.properties.body == CollisionBody::Rect && c.first < c.second,
                ShapeTest::CircleCircle => first.properties.body == CollisionBody::Circle
                    && second.properties.body == CollisionBody::Circle && c.first < c.second,
                ShapeTest::RectCircle => first.properties.body == CollisionBody::Rect
                    && second.properties.body == CollisionBody::Circle,
            }
        }),
{
    lemma_candidate_sound(colliders, k);
}

/// Every two rows `i < j` whose objects may collide have their candidate in
/// the list.
pub proof fn lemma_candidate_complete(colliders: Seq<Collider>, i: int, j: int)
    requires
        0 <= i < j < colliders.len(),
        spec_may_collide(colliders[i].properties, colliders[j].properties),
    ensures
        candidates_of(colliders).contains(candidate_of(colliders, i, j)),
{
    let n = colliders.len() as int;
    let all = pairs_of_rows(n, n);
    lemma_pairs_of_rows(n, n);
    assert(all.contains((i, j)));
    let y = choose|y: int| 0 <= y < all.len() && all[y] == (i, j);
    all.lemma_filter_contains(passes(colliders), y);
    let kept = all.filter(passes(colliders));
    let x = choose|x: int| 0 <= x < kept.len() && kept[x] == (i, j);
    assert(candidates_of(colliders)[x] == candidate_of(colliders, i, j));
}

/// Two objects whose categories do not match in both directions are never
/// tested against each other: no candidate names their two rows, in either
/// order. A match in one direction alone is not enough.
pub proof fn lemma_one_way_match_is_no_candidate(colliders: Seq<Collider>, i: int, j: int)
    requires
        0 <= i < colliders.len(),
        0 <= j < colliders.len(),
        colliders.len() <= usize::MAX,
        !colliders[i].properties.mask.intersects(colliders[j].properties.group)
            || !colliders[j].properties.mask.intersects(colliders[i].properties.group),
    ensures
        forall|k: int|
            0 <= k < candidates_of(colliders).len() ==> {
                let c = #[trigger] candidates_of(colliders)[k];
                !(c.first == i && c.second == j) && !(c.first == j && c.second == i)
            },
{
    assert forall|k: int| 0 <= k < candidates_of(colliders).len() implies {
        let c = #[trigger] candidates_of(colliders)[k];
        !(c.first == i && c.second == j) && !(c.first == j && c.second == i)
    } by {
        lemma_candidate_sound(colliders, k);
    }
}

/// No two candidates name the same two rows, in either order: a pair of
/// objects is tested at most once per tick.
pub proof fn lemma_candidates_name_distinct_rows(colliders: Seq<Collider>, k1: int, k2: int)
    requires
        0 <= k1 < k2 < candidates_of(colliders).len(),
        colliders.len() <= usize::MAX,
    ensures
        ({
            let c1 = candidates_of(colliders)[k1];
            let c2 = candidates_of(colliders)[k2];
            !(c1.first == c2.first && c1.second == c2.second) && !(c1.first == c2.second
                && c1.second == c2.first)
        }),
{
    let n = colliders.len() as int;
    lemma_candidate_sound(colliders, k1);
    lemma_candidate_sound(colliders, k2);
    lemma_pairs_of_rows(n, n);
    lemma_filter_ascending(pairs_of_rows(n, n), passes(colliders));
    let kept = candidate_pairs(colliders);
    assert(precedes(kept[k1], kept[k2]));
}

/// A detected collision: the two objects, in the order in which the overlap
/// test took them, and what the test found.
#[derive(Debug, PartialEq, Eq)]
pub struct CollisionEvent<R> {
    pub collidees: [u64; 2],
    pub collision_result: R,
}

/// The events of the first `k` candidates: one for each candidate whose test
/// found an overlap, in the order of the candidates.
pub open spec fn events_of_first<R>(
    candidates: Seq<Candidate>,
    results: Seq<Option<R>>,
    k: int,
) -> Seq<CollisionEvent<R>>
    decreases k,
{
    if k <= 0 {
        Seq::empty()
    } else {
        let earlier = events_of_first(candidates, results, k - 1);
        match results[k - 1] {
            Some(found) => earlier.push(
                CollisionEvent { collidees: candidates[k - 1].collidees, collision_result: found },
            ),
            None => earlier,
        }
    }
}

/// The events of a tick: one for each candidate whose test found an overlap,
/// in the order of the candidates. `results[k]` is what the test of
/// `candidates[k]` found; a candidate without a result yields no event.
pub open spec fn events_of<R>(candidates: Seq<Candidate>, results: Seq<Option<R>>) -> Seq<
    CollisionEvent<R>,
> {
    events_of_first(
        candidates,
        results,
        if candidates.len() <= results.len() {
            candidates.len() as int
        } else {
            results.len() as int
        },
    )
}

/// Turns the outcomes of the overlap tests into the events of the tick: one
/// event for each candidate whose test found an overlap, in the order of the
/// candidates, naming the two objects in the order in which the test took
/// them.
pub fn collision_events<R: Copy>(candidates: &Vec<Candidate>, results: &Vec<Option<R>>) -> (events:
    Vec<CollisionEvent<R>>)
    ensures
        events@ == events_of(candidates@, results@),
{
    let n = if candidates.len() <= results.len() {
        candidates.len()
    } else {
        results.len()
    };
    let mut events: Vec<CollisionEvent<R>> = Vec::new();
    let mut k: usize = 0;
    while k < n
        invariant
            k <= n,
            n <= candidates.len(),
            n <= results.len(),
            events@ == events_of_first(candidates@, results@, k as int),
        decreases n - k,
    {
        let candidate = candidates[k];
        let result = results[k];
        if let Some(found) = result {
            events.push(CollisionEvent { collidees: candidate.collidees, collision_result: found });
        }
        k += 1;
    }
    events
}

/// Whether `event` is what candidate `m` and the outcome of its test make.
pub open spec fn yields<R>(
    candidates: Seq<Candidate>,
    results: Seq<Option<R>>,
    m: int,
    event: CollisionEvent<R>,
) -> bool {
    &&& 0 <= m < candidates.len()
    &&& m < results.len()
    &&& results[m] == Some(event.collision_result)
    &&& event.collidees == candidates[m].collidees
}

/// Whether `event` comes from one of the first `k` candidates.
pub open spec fn comes_from_first<R>(
    candidates: Seq<Candidate>,
    results: Seq<Option<R>>,
    k: int,
    event: CollisionEvent<R>,
) -> bool {
    exists|m: int| m < k && #[trigger] yields(candidates, results, m, event)
}

/// Whether `earlier` and `later` come from two of the first `k` candidates,
/// `earlier` from the earlier one.
pub open spec fn come_in_order_from_first<R>(
    candidates: Seq<Candidate>,
    results: Seq<Option<R>>,
    k: int,
    earlier: CollisionEvent<R>,
    later: CollisionEvent<R>,
) -> bool {
    exists|m1: int, m2: int|
        m1 < m2 < k && #[trigger] yields(candidates, results, m1, earlier) && #[trigger] yields(
            candidates,
            results,
            m2,
            later,
        )
}

/// Events and overlaps correspond one to one, in order: every event comes
/// from a candidate whose test found an overlap, every such candidate has
/// its event, and of two events the later one comes from the later
/// candidate.
pub proof fn lemma_events_follow_candidates<R>(
    candidates: Seq<Candidate>,
    results: Seq<Option<R>>,
    k: int,
)
    requires
        0 <= k <= candidates.len(),
        k <= results.len(),
    ensures
        events_of_first(candidates, results, k).len() <= k,
        forall|e: int|
            0 <= e < events_of_first(candidates, results, k).len() ==> comes_from_first(
                candidates,
                results,
                k,
                #[trigger] events_of_first(candidates, results, k)[e],
            ),
        forall|m: int, found: R|
            0 <= m < k && results[m] == Some(found) ==> #[trigger] events_of_first(
                candidates,
                results,
                k,
            ).contains(CollisionEvent { collidees: candidates[m].collidees, collision_result: found }),
        forall|e1: int, e2: int|
            0 <= e1 < e2 < events_of_first(candidates, results, k).len()
                ==> come_in_order_from_first(
                candidates,
                results,
                k,
                #[trigger] events_of_first(candidates, results, k)[e1],
                #[trigger] events_of_first(candidates, results, k)[e2],
            ),
    decreases k,
{
    if k > 0 {
        lemma_events_follow_candidates(candidates, results, k - 1);
        let earlier = events_of_first(candidates, results, k - 1);
        let events = events_of_first(candidates, results, k);
        assert forall|e: int| 0 <= e < events.len() implies comes_from_first(
            candidates,
            results,
            k,
            #[trigger] events[e],
        ) by {
            if e < earlier.len() {
                assert(events[e] == earlier[e]);
                assert(comes_from_first(candidates, results, k - 1, earlier[e]));
                let m = choose|m: int|
                    m < k - 1 && #[trigger] yields(candidates, results, m, earlier[e]);
                assert(yields(candidates, results, m, events[e]));
            } else {
                assert(yields(candidates, results, k - 1, events[e]));
            }
        }
        assert forall|m: int, found: R|
            0 <= m < k && results[m] == Some(found) implies #[trigger] events.contains(
            CollisionEvent { collidees: candidates[m].collidees, collision_result: found },
        ) by {
            let event = CollisionEvent {
                collidees: candidates[m].collidees,
                collision_result: found,
            };
            if m < k - 1 {
                assert(earlier.contains(event));
                let e = choose|e: int| 0 <= e < earlier.len() && earlier[e] == event;
                assert(events[e] == event);
            } else {
                assert(events[events.len() - 1] == event);
            }
        }
        assert forall|e1: int, e2: int| 0 <= e1 < e2 < events.len() implies come_in_order_from_first(
            candidates,
            results,
            k,
            #[trigger] events[e1],
            #[trigger] events[e2],
        ) by {
            if e2 < earlier.len() {
                assert(events[e1] == earlier[e1] && events[e2] == earlier[e2]);
                assert(come_in_order_from_first(candidates, results, k - 1, earlier[e1], earlier[e2]));
                let (m1, m2) = choose|m1: int, m2: int|
                    m1 < m2 < k - 1 && #[trigger] yields(candidates, results, m1, earlier[e1])
                        && #[trigger] yields(candidates, results, m2, earlier[e2]);
                assert(m1 < m2 < k && yields(candidates, results, m1, events[e1]) && yields(
                    candidates,
                    results,
                    m2,
                    events[e2],
                ));
            } else {
                assert(events[e1] == earlier[e1]);
                assert(comes_from_first(candidates, results, k - 1, earlier[e1]));
                let m1 = choose|m: int|
                    m < k - 1 && #[trigger] yields(candidates, results, m, earlier[e1]);
                assert(m1 < k - 1 < k && yields(candidates, results, m1, events[e1]) && yields(
                    candidates,
                    results,
                    k - 1,
                    events[e2],
                ));
            }
        }
    }
}

/// Detection depends on nothing but the table and the outcomes of the
/// overlap tests: the same rows and the same outcomes give the same
/// candidates and the same events.
pub proof fn lemma_detection_is_repeatable<R>(
    colliders: Seq<Collider>,
    results: Seq<Option<R>>,
    colliders_again: Seq<Collider>,
    results_again: Seq<Option<R>>,
)
    requires
        colliders.len() == colliders_again.len(),
        forall|i: int| 0 <= i < colliders.len() ==> colliders[i] == colliders_again[i],
        results.len() == results_again.len(),
        forall|k: int| 0 <= k < results.len() ==> results[k] == results_again[k],
    ensures
        candidates_of(colliders) == candidates_of(colliders_again),
        events_of(candidates_of(colliders), results) == events_of(
            candidates_of(colliders_again),
            results_again,
        ),
{
    assert(colliders =~= colliders_again);
    assert(results =~= results_again);
}

/// Whether no two rows of the table hold the same entity.
pub open spec fn entities_distinct(colliders: Seq<Collider>) -> bool {
    forall|i: int, j: int|
        0 <= i < j < colliders.len() ==> (#[trigger] colliders[i]).entity != (
        #[trigger] colliders[j]).entity
}

/// A tick yields at most one event for any two objects: where no entity
/// stands twice in the table, no two events name the same two entities, in
/// either order.
pub proof fn lemma_one_event_per_pair<R>(
    colliders: Seq<Collider>,
    results: Seq<Option<R>>,
    e1: int,
    e2: int,
)
    requires
        colliders.len() <= usize::MAX,
        entities_distinct(colliders),
        0 <= e1 < e2 < events_of(candidates_of(colliders), results).len(),
    ensures
        ({
            let a = events_of(candidates_of(colliders), results)[e1].collidees;
            let b = events_of(candidates_of(colliders), results)[e2].collidees;
            !(a[0] == b[0] && a[1] == b[1]) && !(a[0] == b[1] && a[1] == b[0])
        }),
{
    let candidates = candidates_of(colliders);
    let k = if candidates.len() <= results.len() {
        candidates.len() as int
    } else {
        results.len() as int
    };
    let events = events_of_first(candidates, results, k);
    lemma_events_follow_candidates(candidates, results, k);
    assert(come_in_order_from_first(candidates, results, k, events[e1], events[e2]));
    let (m1, m2) = choose|m1: int, m2: int|
        m1 < m2 < k && #[trigger] yields(candidates, results, m1, events[e1]) && #[trigger] yields(
            candidates,
            results,
            m2,
            events[e2],
        );
    lemma_candidate_sound(colliders, m1);
    lemma_candidate_sound(colliders, m2);
    lemma_candidates_name_distinct_rows(colliders, m1, m2);
}

} // verus!
