//! Facts about removal, resolution and detection that the frame step rests on.

use crate::physics::{
    ball_ball_detection, ball_rect_events, balls_wf, detect_pair, detect_row, detect_rows,
    integrate_all, resolve_collisions, BallBody, BodyId, CollisionEvent, Detection,
};
use crate::platform::{spawn_events_wf, spawned_balls, NUM_ITEMS};
use crate::world::{distinct_balls, has_ball, has_wall, merge_spawns, remaining, WorldView};
use vstd::prelude::*;

verus! {

/// Removal keeps exactly the balls that are not named, in their order.
pub proof fn lemma_remaining(balls: Seq<BallBody>, removed: Seq<BodyId>)
    ensures
        remaining(balls, removed).len() <= balls.len(),
        forall|k: int|
            0 <= k < remaining(balls, removed).len() ==> balls.contains(
                #[trigger] remaining(balls, removed)[k],
            ) && !removed.contains(remaining(balls, removed)[k].entity),
        forall|i: int|
            0 <= i < balls.len() && !removed.contains((#[trigger] balls[i]).entity) ==> remaining(
                balls,
                removed,
            ).contains(balls[i]),
        forall|e: BodyId| removed.contains(e) ==> !has_ball(remaining(balls, removed), e),
        distinct_balls(balls) ==> distinct_balls(remaining(balls, removed)),
    decreases balls.len(),
{
    let rem = remaining(balls, removed);
    if balls.len() > 0 {
        let rest = balls.drop_last();
        let last = balls.last();
        let rem_rest = remaining(rest, removed);
        lemma_remaining(rest, removed);
        assert forall|k: int| 0 <= k < rem.len() implies balls.contains(#[trigger] rem[k])
            && !removed.contains(rem[k].entity) by {
            if k < rem_rest.len() {
                assert(rem[k] == rem_rest[k]);
                assert(rest.contains(rem_rest[k]));
                let i = choose|i: int| 0 <= i < rest.len() && rest[i] == rem_rest[k];
                assert(balls[i] == rem[k]);
            } else {
                assert(rem[k] == last);
                assert(balls[balls.len() - 1] == last);
            }
        }
        assert forall|i: int|
            0 <= i < balls.len() && !removed.contains((#[trigger] balls[i]).entity) implies rem.contains(
            balls[i],
        ) by {
            if i < rest.len() {
                assert(rest[i] == balls[i]);
                assert(rem_rest.contains(rest[i]));
                let k = choose|k: int| 0 <= k < rem_rest.len() && rem_rest[k] == rest[i];
                assert(rem[k] == balls[i]);
            } else {
                assert(rem[rem.len() - 1] == balls[i]);
            }
        }
        assert forall|e: BodyId| removed.contains(e) implies !has_ball(rem, e) by {
            if has_ball(rem, e) {
                let k = choose|k: int| 0 <= k < rem.len() && (#[trigger] rem[k]).entity == e;
                assert(!removed.contains(rem[k].entity));
            }
        }
        if distinct_balls(balls) {
            assert(distinct_balls(rest)) by {
                assert forall|i: int, j: int| 0 <= i < j < rest.len() implies (
                #[trigger] rest[i]).entity != (#[trigger] rest[j]).entity by {
                    assert(rest[i] == balls[i] && rest[j] == balls[j]);
                }
            }
            assert forall|i: int, j: int| 0 <= i < j < rem.len() implies (#[trigger] rem[i]).entity
                != (#[trigger] rem[j]).entity by {
                if j < rem_rest.len() {
                    assert(rem[i] == rem_rest[i] && rem[j] == rem_rest[j]);
                } else {
                    assert(rem[j] == last);
                    assert(rem[i] == rem_rest[i]);
                    assert(rest.contains(rem_rest[i]));
                    let m = choose|m: int| 0 <= m < rest.len() && rest[m] == rem_rest[i];
                    assert(balls[m] == rem[i]);
                    assert(balls[balls.len() - 1] == last);
                }
            }
        }
    }
}

/// A list names an identity after another was added to it exactly if it named it before or
/// it is the one added.
proof fn lemma_push_contains(removed: Seq<BodyId>, entity: BodyId, other: BodyId)
    ensures
        removed.push(entity).contains(other) <==> removed.contains(other) || other == entity,
{
    let more = removed.push(entity);
    assert(more[removed.len() as int] == entity);
    if removed.contains(other) {
        let k = choose|k: int| 0 <= k < removed.len() && removed[k] == other;
        assert(more[k] == other);
    }
    if more.contains(other) && other != entity {
        let k = choose|k: int| 0 <= k < more.len() && more[k] == other;
        assert(removed[k] == other);
    }
}

/// To remove a ball that is not there changes nothing.
pub proof fn lemma_remove_absent(balls: Seq<BallBody>, removed: Seq<BodyId>, entity: BodyId)
    requires
        !has_ball(balls, entity),
    ensures
        remaining(balls, removed.push(entity)) == remaining(balls, removed),
    decreases balls.len(),
{
    if balls.len() > 0 {
        let rest = balls.drop_last();
        let last = balls.last();
        assert(balls[balls.len() - 1] == last);
        assert(!has_ball(rest, entity)) by {
            if has_ball(rest, entity) {
                let i = choose|i: int| 0 <= i < rest.len() && (#[trigger] rest[i]).entity == entity;
                assert(balls[i].entity == entity);
            }
        }
        lemma_remove_absent(rest, removed, entity);
        lemma_push_contains(removed, entity, last.entity);
    }
}

/// Among balls with distinct identities, to remove one more ball that is there leaves
/// exactly one ball fewer.
pub proof fn lemma_remove_present(balls: Seq<BallBody>, removed: Seq<BodyId>, entity: BodyId)
    requires
        distinct_balls(balls),
        has_ball(balls, entity),
        !removed.contains(entity),
    ensures
        remaining(balls, removed.push(entity)).len() + 1 == remaining(balls, removed).len(),
    decreases balls.len(),
{
    let rest = balls.drop_last();
    let last = balls.last();
    let i = choose|i: int| 0 <= i < balls.len() && (#[trigger] balls[i]).entity == entity;
    assert(balls[balls.len() - 1] == last);
    lemma_push_contains(removed, entity, last.entity);
    if last.entity == entity {
        assert(!has_ball(rest, entity)) by {
            if has_ball(rest, entity) {
                let j = choose|j: int| 0 <= j < rest.len() && (#[trigger] rest[j]).entity == entity;
                assert(balls[j].entity == entity);
            }
        }
        lemma_remove_absent(rest, removed, entity);
    } else {
        assert(rest[i].entity == entity);
        assert forall|a: int, b: int| 0 <= a < b < rest.len() implies (#[trigger] rest[a]).entity
            != (#[trigger] rest[b]).entity by {
            assert(rest[a] == balls[a] && rest[b] == balls[b]);
        }
        lemma_remove_present(rest, removed, entity);
    }
}

/// Resolution changes neither the number nor the order, identity, shape or material of
/// the balls.
pub proof fn lemma_resolve_keeps_bodies(balls: Seq<BallBody>, events: Seq<CollisionEvent>)
    ensures
        resolve_collisions(balls, events).len() == balls.len(),
        forall|i: int|
            0 <= i < balls.len() ==> (#[trigger] resolve_collisions(balls, events)[i]).entity
                == balls[i].entity && resolve_collisions(balls, events)[i].ball == balls[i].ball,
    decreases events.len(),
{
    if events.len() > 0 {
        lemma_resolve_keeps_bodies(balls, events.drop_last());
    }
}

/// What holds of a detection result as it grows pair by pair over well-formed balls:
/// every merge is of two balls of one tier and makes the tier after it, which exists.
pub open spec fn merges_wf(found: Detection) -> bool {
    forall|k: int|
        0 <= k < found.merges.len() ==> {
            let merge = #[trigger] found.merges[k];
            &&& merge.tier_a == merge.tier_b
            &&& merge.tier_a < NUM_ITEMS
            &&& merge.new_tier == (merge.tier_a + 1) % (NUM_ITEMS as int)
            &&& merge.new_tier < NUM_ITEMS
        }
}

proof fn lemma_detect_pair_merges(found: Detection, ball_1: BallBody, ball_2: BallBody)
    requires
        merges_wf(found),
        ball_1.ball.wf(),
        ball_2.ball.wf(),
    ensures
        merges_wf(detect_pair(found, ball_1, ball_2)),
{
    let next = detect_pair(found, ball_1, ball_2);
    assert forall|k: int| 0 <= k < next.merges.len() implies {
        let merge = #[trigger] next.merges[k];
        &&& merge.tier_a == merge.tier_b
        &&& merge.tier_a < NUM_ITEMS
        &&& merge.new_tier == (merge.tier_a + 1) % (NUM_ITEMS as int)
        &&& merge.new_tier < NUM_ITEMS
    } by {
        if k < found.merges.len() {
            assert(next.merges[k] == found.merges[k]);
        }
    }
}

proof fn lemma_detect_row_merges(found: Detection, balls: Seq<BallBody>, i: int, j: int)
    requires
        merges_wf(found),
        balls_wf(balls),
        0 <= i,
        j <= balls.len(),
    ensures
        merges_wf(detect_row(found, balls, i, j)),
    decreases j - i,
{
    if j > i + 1 {
        lemma_detect_row_merges(found, balls, i, j - 1);
        lemma_detect_pair_merges(detect_row(found, balls, i, j - 1), balls[i], balls[j - 1]);
    }
}

proof fn lemma_detect_rows_merges(balls: Seq<BallBody>, i: int)
    requires
        balls_wf(balls),
        i <= balls.len(),
    ensures
        merges_wf(detect_rows(balls, i)),
    decreases i,
{
    if i > 0 {
        lemma_detect_rows_merges(balls, i - 1);
        lemma_detect_row_merges(detect_rows(balls, i - 1), balls, i - 1, balls.len() as int);
    }
}

/// Every merge that detection finds among well-formed balls is of two balls of one tier
/// and makes the tier after it.
pub proof fn lemma_detection_merges(balls: Seq<BallBody>)
    requires
        balls_wf(balls),
    ensures
        merges_wf(ball_ball_detection(balls)),
{
    lemma_detect_rows_merges(balls, balls.len() as int);
}

/// Each merge so far has taken exactly two of the balls away, and entered them as removed.
pub open spec fn two_per_merge(balls: Seq<BallBody>, found: Detection) -> bool {
    &&& remaining(balls, found.removed).len() + 2 * found.merges.len() == balls.len()
    &&& found.removed.len() == 2 * found.merges.len()
}

/// Where no ball is named, none is removed.
pub proof fn lemma_remove_none(balls: Seq<BallBody>)
    ensures
        remaining(balls, seq![]) == balls,
    decreases balls.len(),
{
    if balls.len() > 0 {
        lemma_remove_none(balls.drop_last());
        assert(balls.drop_last().push(balls.last()) =~= balls);
    }
}

proof fn lemma_detect_pair_count(balls: Seq<BallBody>, found: Detection, i: int, j: int)
    requires
        distinct_balls(balls),
        0 <= i < j < balls.len(),
        two_per_merge(balls, found),
    ensures
        two_per_merge(balls, detect_pair(found, balls[i], balls[j])),
{
    let next = detect_pair(found, balls[i], balls[j]);
    if next.merges.len() != found.merges.len() {
        let first = found.removed.push(balls[i].entity);
        assert(has_ball(balls, balls[i].entity));
        assert(has_ball(balls, balls[j].entity));
        lemma_remove_present(balls, found.removed, balls[i].entity);
        lemma_push_contains(found.removed, balls[i].entity, balls[j].entity);
        lemma_remove_present(balls, first, balls[j].entity);
    }
}

proof fn lemma_detect_row_count(balls: Seq<BallBody>, found: Detection, i: int, j: int)
    requires
        distinct_balls(balls),
        0 <= i,
        j <= balls.len(),
        two_per_merge(balls, found),
    ensures
        two_per_merge(balls, detect_row(found, balls, i, j)),
    decreases j - i,
{
    if j > i + 1 {
        lemma_detect_row_count(balls, found, i, j - 1);
        lemma_detect_pair_count(balls, detect_row(found, balls, i, j - 1), i, j - 1);
    }
}

proof fn lemma_detect_rows_count(balls: Seq<BallBody>, i: int)
    requires
        distinct_balls(balls),
        i <= balls.len(),
    ensures
        two_per_merge(balls, detect_rows(balls, i)),
    decreases i,
{
    if i > 0 {
        lemma_detect_rows_count(balls, i - 1);
        lemma_detect_row_count(balls, detect_rows(balls, i - 1), i - 1, balls.len() as int);
    } else {
        lemma_remove_none(balls);
    }
}

/// Among balls with distinct identities, each merge takes exactly two balls away: the
/// balls that are left and twice the merges are as many as the balls there were.
pub proof fn lemma_detection_count(balls: Seq<BallBody>)
    requires
        distinct_balls(balls),
    ensures
        two_per_merge(balls, ball_ball_detection(balls)),
{
    lemma_detect_rows_count(balls, balls.len() as int);
}

/// A frame keeps the world well-formed, and identities suffice for the balls it creates.
pub proof fn lemma_step_wf(world: WorldView, dt: u64)
    requires
        world.wf(),
    ensures
        world.step(dt).wf(),
        spawn_events_wf(merge_spawns(world.step_merges(dt))),
        world.next_entity + world.step_merges(dt).len() <= u64::MAX,
{
    let moved = integrate_all(world.balls, dt);
    let found = ball_ball_detection(moved);
    let events = ball_rect_events(moved, world.walls) + found.events;
    let kept = remaining(moved, found.removed);
    let resolved = resolve_collisions(kept, events);
    let spawns = merge_spawns(found.merges);
    let born = spawned_balls(world.items, spawns, world.next_entity);
    let after = world.step(dt);
    assert(balls_wf(moved) && distinct_balls(moved));
    lemma_detection_merges(moved);
    lemma_detection_count(moved);
    lemma_remaining(moved, found.removed);
    lemma_resolve_keeps_bodies(kept, events);
    assert(spawn_events_wf(spawns));
    assert(after.balls == resolved + born);
    assert forall|i: int| 0 <= i < resolved.len() implies has_ball(
        moved,
        (#[trigger] resolved[i]).entity,
    ) && resolved[i].ball.wf() by {
        assert(resolved[i].entity == kept[i].entity);
        assert(moved.contains(kept[i]));
    }
    assert forall|i: int| 0 <= i < after.balls.len() implies (#[trigger] after.balls[i]).ball.wf()
        && after.balls[i].entity < after.next_entity && !has_wall(
        after.walls,
        after.balls[i].entity,
    ) by {
        if i < resolved.len() {
            assert(after.balls[i] == resolved[i]);
            let e = resolved[i].entity;
            let m = choose|m: int| 0 <= m < moved.len() && (#[trigger] moved[m]).entity == e;
            assert(moved[m].entity == world.balls[m].entity);
        } else {
            let k = i - resolved.len();
            assert(after.balls[i] == born[k]);
            assert(spawns[k].item_type < NUM_ITEMS);
            if has_wall(after.walls, after.balls[i].entity) {
                let j = choose|j: int|
                    0 <= j < after.walls.len() && (#[trigger] after.walls[j]).entity
                        == after.balls[i].entity;
            }
        }
    }
    assert forall|i: int, j: int| 0 <= i < j < after.balls.len() implies (
    #[trigger] after.balls[i]).entity != (#[trigger] after.balls[j]).entity by {
        if j < resolved.len() {
            assert(after.balls[i] == resolved[i] && after.balls[j] == resolved[j]);
            assert(kept[i].entity != kept[j].entity);
        } else if i < resolved.len() {
            assert(after.balls[i] == resolved[i]);
            assert(after.balls[j] == born[j - resolved.len()]);
            let e = resolved[i].entity;
            let m = choose|m: int| 0 <= m < moved.len() && (#[trigger] moved[m]).entity == e;
            assert(moved[m].entity == world.balls[m].entity);
        } else {
            assert(after.balls[i] == born[i - resolved.len()]);
            assert(after.balls[j] == born[j - resolved.len()]);
        }
    }
}

} // verus!
