//! Laws of the frame step, proved over [`WorldView::step`].

use crate::physics::{
    ball_ball_contact, ball_ball_detection, ball_rect_contact, ball_rect_events, ball_wall_events,
    detect_pair, detect_row, detect_rows, fall_speed, integrate, integrate_all, nearest_point,
    next_tier, resolve_collisions, wall_event, BallBody, BodyId, CollisionEvent, Detection,
    MergeNotification, Vec2, Velocity, WallBody,
};
use crate::platform::{
    spawn_events_wf, spawned_balls, ItemsResources, SpawnItemEvent, NUM_ITEMS,
};
use crate::world::{
    distinct_balls, find_ball, has_ball, merge_spawns, remaining, WorldView,
};
use crate::world_lemmas::{
    lemma_detection_count, lemma_detection_merges, lemma_remaining, lemma_resolve_keeps_bodies,
    lemma_step_wf,
};
use vstd::prelude::*;

verus! {

/// The body `entity` takes part in no contact during the frame: it does not merge, and no
/// event is directed at it.
pub open spec fn untouched(world: WorldView, dt: u64, entity: BodyId) -> bool {
    &&& !ball_ball_detection(integrate_all(world.balls, dt)).removed.contains(entity)
    &&& forall|k: int|
        0 <= k < world.step_events(dt).len() ==> (#[trigger] world.step_events(dt)[k]).entity1
            != entity
}

/// A detection result with nothing in it.
pub open spec fn nothing_found() -> Detection {
    Detection { events: seq![], merges: seq![], removed: seq![] }
}

/// Among balls with distinct identities, a lookup by identity finds the ball that has it.
pub proof fn lemma_find_ball(balls: Seq<BallBody>, i: int)
    requires
        distinct_balls(balls),
        0 <= i < balls.len(),
    ensures
        find_ball(balls, balls[i].entity) == Some(balls[i]),
    decreases balls.len(),
{
    if i > 0 {
        let rest = balls.drop_first();
        assert(balls[0].entity != balls[i].entity);
        assert forall|a: int, b: int| 0 <= a < b < rest.len() implies (#[trigger] rest[a]).entity
            != (#[trigger] rest[b]).entity by {
            assert(rest[a] == balls[a + 1] && rest[b] == balls[b + 1]);
        }
        assert(rest[i - 1] == balls[i]);
        lemma_find_ball(rest, i - 1);
    }
}

/// A lookup by identity reports not-found exactly when no ball has the identity.
pub proof fn lemma_find_ball_none(balls: Seq<BallBody>, entity: BodyId)
    ensures
        find_ball(balls, entity) is None <==> !has_ball(balls, entity),
    decreases balls.len(),
{
    if balls.len() > 0 {
        let rest = balls.drop_first();
        lemma_find_ball_none(rest, entity);
        if balls[0].entity != entity {
            if has_ball(balls, entity) {
                let i = choose|i: int| 0 <= i < balls.len() && (#[trigger] balls[i]).entity == entity;
                assert(rest[i - 1] == balls[i]);
            }
            if has_ball(rest, entity) {
                let i = choose|i: int| 0 <= i < rest.len() && (#[trigger] rest[i]).entity == entity;
                assert(balls[i + 1] == rest[i]);
            }
        }
    }
}

/// Resolution leaves a ball as it is when no event is directed at it.
pub proof fn lemma_resolve_skips(balls: Seq<BallBody>, events: Seq<CollisionEvent>, k: int)
    requires
        0 <= k < balls.len(),
        forall|e: int| 0 <= e < events.len() ==> (#[trigger] events[e]).entity1 != balls[k].entity,
    ensures
        resolve_collisions(balls, events)[k] == balls[k],
    decreases events.len(),
{
    if events.len() > 0 {
        let earlier = events.drop_last();
        assert forall|e: int| 0 <= e < earlier.len() implies (#[trigger] earlier[e]).entity1
            != balls[k].entity by {
            assert(earlier[e] == events[e]);
        }
        lemma_resolve_skips(balls, earlier, k);
        lemma_resolve_keeps_bodies(balls, earlier);
        assert(events.last() == events[events.len() - 1]);
    }
}

/// A ball that takes part in no contact during a frame falls freely: the frame leaves it
/// as free flight leaves it. Its lateral speed is unchanged, and its drop-axis speed has
/// fallen by `GRAVITY * dt`, but not below `-MAX_SPEED`.
pub proof fn lemma_step_free_fall(world: WorldView, dt: u64, i: int)
    requires
        world.wf(),
        0 <= i < world.balls.len(),
        untouched(world, dt, world.balls[i].entity),
    ensures
        find_ball(world.step(dt).balls, world.balls[i].entity) == Some(
            integrate(world.balls[i], dt),
        ),
        integrate(world.balls[i], dt).velocity.velocity.x == world.balls[i].velocity.velocity.x,
        integrate(world.balls[i], dt).velocity.velocity.y == fall_speed(
            world.balls[i].velocity.velocity.y as int,
            dt as int,
        ),
{
    let moved = integrate_all(world.balls, dt);
    let found = ball_ball_detection(moved);
    let events = world.step_events(dt);
    let kept = remaining(moved, found.removed);
    let resolved = resolve_collisions(kept, events);
    let after = world.step(dt);
    assert(moved[i] == integrate(world.balls[i], dt));
    lemma_remaining(moved, found.removed);
    assert(kept.contains(moved[i]));
    let k = choose|k: int| 0 <= k < kept.len() && kept[k] == moved[i];
    lemma_resolve_skips(kept, events, k);
    lemma_resolve_keeps_bodies(kept, events);
    assert(after.balls[k] == resolved[k]);
    lemma_step_wf(world, dt);
    lemma_find_ball(after.balls, k);
}

/// A ball alone in a world without walls takes part in no contact.
pub proof fn lemma_lone_ball_untouched(world: WorldView, dt: u64)
    requires
        world.balls.len() == 1,
        world.walls.len() == 0,
    ensures
        untouched(world, dt, world.balls[0].entity),
{
    let moved = integrate_all(world.balls, dt);
    reveal_with_fuel(detect_rows, 2);
    reveal_with_fuel(detect_row, 2);
    reveal_with_fuel(ball_rect_events, 2);
    reveal_with_fuel(ball_wall_events, 2);
    assert(ball_ball_detection(moved) == nothing_found());
    assert(world.step_events(dt) =~= seq![]);
}

/// A ball and a wall that touch give exactly one event, directed at the ball, with the
/// wall's nearest point as its contact point; a ball and a wall that do not touch give none.
pub proof fn lemma_single_wall_event(ball: BallBody, wall: WallBody)
    ensures
        ball_rect_events(seq![ball], seq![wall]) == match ball_rect_contact(
            ball.ball,
            ball.position,
            wall.rectangle,
            wall.position,
        ) {
            Some(p) => seq![
                CollisionEvent { entity1: ball.entity, entity2: wall.entity, collision_point: p },
            ],
            None => seq![],
        },
        ball_rect_contact(ball.ball, ball.position, wall.rectangle, wall.position) is Some
            ==> ball_rect_contact(ball.ball, ball.position, wall.rectangle, wall.position) == Some(
            nearest_point(ball.position, wall.rectangle, wall.position),
        ),
{
    reveal_with_fuel(ball_rect_events, 2);
    reveal_with_fuel(ball_wall_events, 2);
    let balls = seq![ball];
    let walls = seq![wall];
    assert(balls.last() == ball && walls.last() == wall);
    assert(balls.drop_last() =~= seq![]);
    assert(walls.drop_last() =~= seq![]);
    assert(ball_rect_events(balls, walls) =~= wall_event(ball, wall));
}

/// Detection among two balls looks at their one pair: touching balls of different tiers
/// get an event each, the earlier ball's first; touching balls of one tier merge; balls
/// that do not touch give nothing.
pub proof fn lemma_pair_detection(ball_1: BallBody, ball_2: BallBody)
    ensures
        ball_ball_detection(seq![ball_1, ball_2]) == detect_pair(nothing_found(), ball_1, ball_2),
        ({
            let found = ball_ball_detection(seq![ball_1, ball_2]);
            match ball_ball_contact(ball_1.ball, ball_1.position, ball_2.ball, ball_2.position) {
                None => found.events.len() == 0 && found.merges.len() == 0 && found.removed.len()
                    == 0,
                Some(p) => if ball_1.ball.ball_type == ball_2.ball.ball_type {
                    &&& found.events.len() == 0
                    &&& found.merges == seq![
                        MergeNotification {
                            tier_a: ball_1.ball.ball_type,
                            tier_b: ball_2.ball.ball_type,
                            new_tier: next_tier(ball_1.ball.ball_type),
                            position: p,
                        },
                    ]
                    &&& found.removed == seq![ball_1.entity, ball_2.entity]
                } else {
                    &&& found.events == seq![
                        CollisionEvent {
                            entity1: ball_1.entity,
                            entity2: ball_2.entity,
                            collision_point: p,
                        },
                        CollisionEvent {
                            entity1: ball_2.entity,
                            entity2: ball_1.entity,
                            collision_point: p,
                        },
                    ]
                    &&& found.merges.len() == 0
                    &&& found.removed.len() == 0
                },
            }
        }),
{
    let balls = seq![ball_1, ball_2];
    reveal_with_fuel(detect_rows, 3);
    reveal_with_fuel(detect_row, 3);
    assert(balls[0] == ball_1 && balls[1] == ball_2);
    let found = detect_pair(nothing_found(), ball_1, ball_2);
    assert(ball_ball_detection(balls) == found);
    match ball_ball_contact(ball_1.ball, ball_1.position, ball_2.ball, ball_2.position) {
        None => {},
        Some(p) => {
            if ball_1.ball.ball_type == ball_2.ball.ball_type {
                assert(found.merges =~= seq![
                    MergeNotification {
                        tier_a: ball_1.ball.ball_type,
                        tier_b: ball_2.ball.ball_type,
                        new_tier: next_tier(ball_1.ball.ball_type),
                        position: p,
                    },
                ]);
                assert(found.removed =~= seq![ball_1.entity, ball_2.entity]);
            } else {
                assert(found.events =~= seq![
                    CollisionEvent {
                        entity1: ball_1.entity,
                        entity2: ball_2.entity,
                        collision_point: p,
                    },
                    CollisionEvent {
                        entity1: ball_2.entity,
                        entity2: ball_1.entity,
                        collision_point: p,
                    },
                ]);
            }
        },
    }
}

/// Every ball that detection enters as removed is one of the balls.
pub open spec fn removed_are_balls(balls: Seq<BallBody>, found: Detection) -> bool {
    forall|k: int| 0 <= k < found.removed.len() ==> has_ball(balls, #[trigger] found.removed[k])
}

proof fn lemma_detect_row_removed(balls: Seq<BallBody>, found: Detection, i: int, j: int)
    requires
        0 <= i,
        j <= balls.len(),
        removed_are_balls(balls, found),
    ensures
        removed_are_balls(balls, detect_row(found, balls, i, j)),
    decreases j - i,
{
    if j > i + 1 {
        lemma_detect_row_removed(balls, found, i, j - 1);
        let before = detect_row(found, balls, i, j - 1);
        let next = detect_pair(before, balls[i], balls[j - 1]);
        assert forall|k: int| 0 <= k < next.removed.len() implies has_ball(
            balls,
            #[trigger] next.removed[k],
        ) by {
            if k < before.removed.len() {
                assert(next.removed[k] == before.removed[k]);
            } else {
                assert(next.removed[k] == balls[i].entity || next.removed[k] == balls[j
                    - 1].entity);
            }
        }
    }
}

proof fn lemma_detect_rows_removed(balls: Seq<BallBody>, i: int)
    requires
        i <= balls.len(),
    ensures
        removed_are_balls(balls, detect_rows(balls, i)),
    decreases i,
{
    if i > 0 {
        lemma_detect_rows_removed(balls, i - 1);
        lemma_detect_row_removed(balls, detect_rows(balls, i - 1), i - 1, balls.len() as int);
    }
}

/// A ball that merges in a frame is gone after the frame: a lookup of its identity
/// reports not-found, whatever else the frame did and however many events named it.
pub proof fn lemma_step_removes_merged(world: WorldView, dt: u64, entity: BodyId)
    requires
        world.wf(),
        ball_ball_detection(integrate_all(world.balls, dt)).removed.contains(entity),
    ensures
        has_ball(world.balls, entity),
        find_ball(world.step(dt).balls, entity) is None,
{
    let moved = integrate_all(world.balls, dt);
    let found = ball_ball_detection(moved);
    let events = world.step_events(dt);
    let kept = remaining(moved, found.removed);
    let resolved = resolve_collisions(kept, events);
    let born = spawned_balls(world.items, merge_spawns(found.merges), world.next_entity);
    let after = world.step(dt);
    lemma_detect_rows_removed(moved, moved.len() as int);
    let r = choose|r: int| 0 <= r < found.removed.len() && found.removed[r] == entity;
    assert(has_ball(moved, found.removed[r]));
    let m = choose|m: int| 0 <= m < moved.len() && (#[trigger] moved[m]).entity == entity;
    assert(world.balls[m].entity == entity);
    lemma_remaining(moved, found.removed);
    lemma_resolve_keeps_bodies(kept, events);
    lemma_step_wf(world, dt);
    if has_ball(after.balls, entity) {
        let i = choose|i: int| 0 <= i < after.balls.len() && (#[trigger] after.balls[i]).entity
            == entity;
        if i < resolved.len() {
            assert(after.balls[i] == resolved[i]);
            assert(kept[i].entity == entity);
            assert(has_ball(kept, entity));
        } else {
            assert(after.balls[i] == born[i - resolved.len()]);
        }
    }
    lemma_find_ball_none(after.balls, entity);
}

/// Each spawn request makes exactly one ball, in the order of the requests: a ball of the
/// requested tier with the radius and bounciness that the catalog gives the tier, at rest
/// at the requested position, well-formed, under the next identity.
pub proof fn lemma_spawned_balls(items: ItemsResources, events: Seq<SpawnItemEvent>, first: BodyId)
    requires
        items.wf(),
        spawn_events_wf(events),
        first + events.len() <= u64::MAX,
    ensures
        spawned_balls(items, events, first).len() == events.len(),
        forall|k: int|
            0 <= k < events.len() ==> {
                let ball = #[trigger] spawned_balls(items, events, first)[k];
                let tier = events[k].item_type;
                &&& ball.entity == first + k
                &&& ball.ball.ball_type == tier
                &&& ball.ball.radius == items.resources@[tier as int].radius
                &&& ball.ball.bounciness == items.resources@[tier as int].bounciness
                &&& ball.ball.wf()
                &&& ball.position == events[k].position
                &&& ball.velocity == (Velocity { velocity: Vec2 { x: 0, y: 0 } })
            },
{
    assert forall|k: int| 0 <= k < events.len() implies {
        let ball = #[trigger] spawned_balls(items, events, first)[k];
        let tier = events[k].item_type;
        &&& ball.entity == first + k
        &&& ball.ball.ball_type == tier
        &&& ball.ball.radius == items.resources@[tier as int].radius
        &&& ball.ball.bounciness == items.resources@[tier as int].bounciness
        &&& ball.ball.wf()
        &&& ball.position == events[k].position
        &&& ball.velocity == (Velocity { velocity: Vec2 { x: 0, y: 0 } })
    } by {
        assert(events[k].item_type < NUM_ITEMS);
        assert(items.resources@[events[k].item_type as int].wf());
    }
}

/// Every merge of a frame, in any world: the frame creates exactly one ball for it, after
/// the balls that are left and in the order of the merges. The ball is of the tier after
/// that of the two balls that merged, wrapping from the highest tier to the lowest, with
/// the catalog's radius and bounciness, at rest at the merge's contact point, under an
/// identity that no body had before.
pub proof fn lemma_step_new_balls(world: WorldView, dt: u64, k: int)
    requires
        world.wf(),
        0 <= k < world.step_merges(dt).len(),
    ensures
        ({
            let merge = world.step_merges(dt)[k];
            let after = world.step(dt);
            let left = after.balls.len() - world.step_merges(dt).len();
            &&& left >= 0
            &&& merge.tier_a == merge.tier_b
            &&& merge.new_tier == next_tier(merge.tier_a)
            &&& after.balls[left + k] == (BallBody {
                entity: (world.next_entity + k) as BodyId,
                ball: world.items.ball(merge.new_tier),
                position: merge.position,
                velocity: Velocity { velocity: Vec2 { x: 0, y: 0 } },
            })
            &&& after.balls[left + k].ball.wf()
            &&& !has_ball(world.balls, after.balls[left + k].entity)
            &&& find_ball(after.balls, (world.next_entity + k) as BodyId) == Some(
                after.balls[left + k],
            )
        }),
{
    let moved = integrate_all(world.balls, dt);
    let found = ball_ball_detection(moved);
    let kept = remaining(moved, found.removed);
    let resolved = resolve_collisions(kept, world.step_events(dt));
    let spawns = merge_spawns(found.merges);
    let born = spawned_balls(world.items, spawns, world.next_entity);
    let after = world.step(dt);
    lemma_detection_merges(moved);
    lemma_resolve_keeps_bodies(kept, world.step_events(dt));
    lemma_step_wf(world, dt);
    lemma_spawned_balls(world.items, spawns, world.next_entity);
    assert(after.balls == resolved + born);
    assert(after.balls[resolved.len() + k] == born[k]);
    assert(found.merges[k].tier_a < NUM_ITEMS);
    if has_ball(world.balls, born[k].entity) {
        let i = choose|i: int|
            0 <= i < world.balls.len() && (#[trigger] world.balls[i]).entity == born[k].entity;
    }
    lemma_find_ball(after.balls, resolved.len() + k);
}

/// Each merge of a frame turns exactly two balls into one: after the frame there are as
/// many balls fewer as the frame made merges, and as many identities were given out.
pub proof fn lemma_step_ball_count(world: WorldView, dt: u64)
    requires
        world.wf(),
    ensures
        world.step(dt).balls.len() + world.step_merges(dt).len() == world.balls.len(),
        world.step(dt).next_entity == world.next_entity + world.step_merges(dt).len(),
        ball_ball_detection(integrate_all(world.balls, dt)).removed.len() == 2
            * world.step_merges(dt).len(),
{
    let moved = integrate_all(world.balls, dt);
    let found = ball_ball_detection(moved);
    lemma_detection_count(moved);
    lemma_resolve_keeps_bodies(remaining(moved, found.removed), world.step_events(dt));
    lemma_step_wf(world, dt);
}

/// Two balls of one tier that touch after the movement of a frame merge: the frame
/// leaves exactly one ball, a new one of the next tier, at rest at the contact point, with
/// the radius and bounciness that the catalog gives its tier. The identities of the two
/// balls are gone, and the frame reports the one merge.
pub proof fn lemma_step_merges_pair(world: WorldView, dt: u64)
    requires
        world.wf(),
        world.balls.len() == 2,
        world.balls[0].ball.ball_type == world.balls[1].ball.ball_type,
        ball_ball_contact(
            world.balls[0].ball,
            integrate(world.balls[0], dt).position,
            world.balls[1].ball,
            integrate(world.balls[1], dt).position,
        ) is Some,
    ensures
        ({
            let tier = world.balls[0].ball.ball_type;
            let contact = ball_ball_contact(
                world.balls[0].ball,
                integrate(world.balls[0], dt).position,
                world.balls[1].ball,
                integrate(world.balls[1], dt).position,
            )->Some_0;
            &&& world.step(dt).balls == seq![
                BallBody {
                    entity: world.next_entity,
                    ball: world.items.ball(next_tier(tier)),
                    position: contact,
                    velocity: Velocity { velocity: Vec2 { x: 0, y: 0 } },
                },
            ]
            &&& world.step_merges(dt) == seq![
                MergeNotification {
                    tier_a: tier,
                    tier_b: tier,
                    new_tier: next_tier(tier),
                    position: contact,
                },
            ]
            &&& find_ball(world.step(dt).balls, world.balls[0].entity) is None
            &&& find_ball(world.step(dt).balls, world.balls[1].entity) is None
        }),
{
    let tier = world.balls[0].ball.ball_type;
    let moved = integrate_all(world.balls, dt);
    assert(moved =~= seq![moved[0], moved[1]]);
    lemma_pair_detection(moved[0], moved[1]);
    let found = ball_ball_detection(moved);
    let events = world.step_events(dt);
    let kept = remaining(moved, found.removed);
    assert(found.removed[0] == moved[0].entity && found.removed[1] == moved[1].entity);
    assert(found.removed.contains(world.balls[0].entity));
    assert(found.removed.contains(world.balls[1].entity));
    lemma_remaining(moved, found.removed);
    assert(kept.len() == 0) by {
        if kept.len() > 0 {
            assert(moved.contains(kept[0]));
            let m = choose|m: int| 0 <= m < moved.len() && moved[m] == kept[0];
            assert(found.removed.contains(moved[m].entity));
        }
    }
    lemma_resolve_keeps_bodies(kept, events);
    let contact = ball_ball_contact(
        world.balls[0].ball,
        integrate(world.balls[0], dt).position,
        world.balls[1].ball,
        integrate(world.balls[1], dt).position,
    )->Some_0;
    let merge = MergeNotification {
        tier_a: tier,
        tier_b: tier,
        new_tier: next_tier(tier),
        position: contact,
    };
    assert(found.merges[0] == merge);
    assert(world.step(dt).balls =~= seq![
        BallBody {
            entity: world.next_entity,
            ball: world.items.ball(next_tier(tier)),
            position: contact,
            velocity: Velocity { velocity: Vec2 { x: 0, y: 0 } },
        },
    ]);
    lemma_step_removes_merged(world, dt, world.balls[0].entity);
    lemma_step_removes_merged(world, dt, world.balls[1].entity);
}

} // verus!
