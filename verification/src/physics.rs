//! Rigid bodies and the three stages of a frame: movement, collision detection and
//! collision resolution.
//!
//! Balls are circles that fall along the negative `y` axis; walls are static axis-aligned
//! rectangles. All quantities are fixed-point, see [`crate::fixed`].

use crate::fixed::{
    along, div_trunc, isqrt, lemma_product_bound, lemma_sqrt_floor, lemma_square_bound, saturate,
    saturate_i32, scale_along, sqrt_floor, MICROS_PER_SECOND, SCALE,
};
use crate::laws::lemma_reflect_no_longer;
use vstd::math::{max, min};
use vstd::prelude::*;

verus! {

/// Downward acceleration, in sub-units per second squared.
pub const GRAVITY: i32 = 200_000_000;

/// Terminal falling speed, in sub-units per second.
pub const MAX_SPEED: i32 = 100_000_000;

/// Identity of a body. Identities are never reused within one [`crate::world::World`].
pub type BodyId = u64;

/// A point or a displacement in the simulation plane. `x` is lateral, `y` is the drop axis.
#[derive(Clone, Copy, Debug, PartialEq, Eq, Structural)]
pub struct Vec2 {
    pub x: i32,
    pub y: i32,
}

/// Velocity of a ball, in sub-units per second.
#[derive(Clone, Copy, Debug, PartialEq, Eq, Structural)]
pub struct Velocity {
    pub velocity: Vec2,
}

/// Shape and material of a ball.
#[derive(Clone, Copy, Debug, PartialEq, Eq, Structural)]
pub struct Ball {
    /// Radius in sub-units, positive.
    pub radius: i32,
    /// Fraction of the speed kept by a bounce, in `1 / SCALE` steps from `0` to `SCALE`.
    pub bounciness: i32,
    /// Tier of the ball, below [`crate::platform::NUM_ITEMS`].
    pub ball_type: u8,
}

/// Extent of a wall. The wall is centred on its position.
#[derive(Clone, Copy, Debug, PartialEq, Eq, Structural)]
pub struct Rectangle {
    pub width: i32,
    pub height: i32,
}

/// A ball together with its identity and state of motion.
#[derive(Clone, Copy, Debug, PartialEq, Eq, Structural)]
pub struct BallBody {
    pub entity: BodyId,
    pub ball: Ball,
    pub position: Vec2,
    pub velocity: Velocity,
}

/// A wall together with its identity and position.
#[derive(Clone, Copy, Debug, PartialEq, Eq, Structural)]
pub struct WallBody {
    pub entity: BodyId,
    pub rectangle: Rectangle,
    pub position: Vec2,
}

/// A contact that `entity1` has to react to. `entity2` is the body it touched.
#[derive(Clone, Copy, Debug, PartialEq, Eq, Structural)]
pub struct CollisionEvent {
    pub entity1: BodyId,
    pub entity2: BodyId,
    pub collision_point: Vec2,
}

impl Ball {
    /// The radius is positive, the bounciness is a fraction of one, the tier exists.
    pub open spec fn wf(self) -> bool {
        &&& self.radius > 0
        &&& 0 <= self.bounciness <= SCALE
        &&& self.ball_type < crate::platform::NUM_ITEMS
    }
}

impl Rectangle {
    /// Neither extent is negative.
    pub open spec fn wf(self) -> bool {
        self.width >= 0 && self.height >= 0
    }
}

impl Vec2 {
    /// The point with the given coordinates, each clamped to the stored range.
    pub open spec fn saturated(x: int, y: int) -> Vec2 {
        Vec2 { x: saturate(x) as i32, y: saturate(y) as i32 }
    }

    /// Squared distance to `other`.
    pub open spec fn dist2(self, other: Vec2) -> int {
        (self.x - other.x) * (self.x - other.x) + (self.y - other.y) * (self.y - other.y)
    }
}

/// `v` moved into the interval of length `extent` centred on `center`.
pub open spec fn clamp_to_extent(v: int, center: int, extent: int) -> int {
    min(max(v, center - extent / 2), center + extent / 2)
}

/// The point of the wall nearest to `p`.
pub open spec fn nearest_point(p: Vec2, rect: Rectangle, rect_pos: Vec2) -> Vec2 {
    Vec2 {
        x: clamp_to_extent(p.x as int, rect_pos.x as int, rect.width as int) as i32,
        y: clamp_to_extent(p.y as int, rect_pos.y as int, rect.height as int) as i32,
    }
}

/// Contact of a ball with a wall: the wall's nearest point, if it lies strictly less than
/// one radius from the ball's centre.
pub open spec fn ball_rect_contact(
    ball: Ball,
    ball_pos: Vec2,
    rect: Rectangle,
    rect_pos: Vec2,
) -> Option<Vec2> {
    let p = nearest_point(ball_pos, rect, rect_pos);
    if ball_pos.dist2(p) < ball.radius * ball.radius {
        Some(p)
    } else {
        None
    }
}

/// Contact of two balls.
///
/// The balls touch when their centres differ and are strictly less than the sum of the
/// radii apart. The contact point lies on the line from the second centre toward the first,
/// at distance `radius_2 - delta` from the second centre, where `delta` is a quarter of the
/// overlap `radius_1 + radius_2 - d` and `d` the distance of the centres rounded down.
pub open spec fn ball_ball_contact(ball_1: Ball, pos_1: Vec2, ball_2: Ball, pos_2: Vec2) -> Option<
    Vec2,
> {
    let vx = pos_1.x - pos_2.x;
    let vy = pos_1.y - pos_2.y;
    let q = vx * vx + vy * vy;
    let radius_sum = ball_1.radius + ball_2.radius;
    if 0 < q < radius_sum * radius_sum {
        let delta = (radius_sum - sqrt_floor(q)) / 4;
        let m = ball_2.radius - delta;
        Some(Vec2::saturated(pos_2.x + along(vx, m, q), pos_2.y + along(vy, m, q)))
    } else {
        None
    }
}

/// One component of the mirror image of the velocity `v` in the line perpendicular to `w`,
/// rounded toward zero. `s` is the dot product of the two vectors and `q` the squared
/// length of `w`; `v` and `w` here are the components on one axis.
pub open spec fn reflect_component(v: int, w: int, s: int, q: int) -> int {
    div_trunc(v * q - 2 * s * w, q)
}

/// The velocity of a ball moving at `(vx, vy)` after it bounced off a surface whose normal
/// has the direction `(wx, wy)`, not both zero.
pub open spec fn bounce_velocity(vx: int, vy: int, wx: int, wy: int, bounciness: int) -> Vec2 {
    let q = wx * wx + wy * wy;
    let s = vx * wx + vy * wy;
    Vec2::saturated(
        div_trunc(reflect_component(vx, wx, s, q) * bounciness, SCALE as int),
        div_trunc(reflect_component(vy, wy, s, q) * bounciness, SCALE as int),
    )
}

/// The ball after it bounced at the contact point `c`.
///
/// The normal points from `c` to the ball's centre. The velocity is mirrored at the
/// surface and scaled by the bounciness; the centre is moved to one radius from `c` along
/// the normal. A ball centred on `c` has no normal and is left as it is.
pub open spec fn bounce(body: BallBody, c: Vec2) -> BallBody {
    let wx = body.position.x - c.x;
    let wy = body.position.y - c.y;
    let q = wx * wx + wy * wy;
    if q == 0 {
        body
    } else {
        BallBody {
            position: Vec2::saturated(
                c.x + along(wx, body.ball.radius as int, q),
                c.y + along(wy, body.ball.radius as int, q),
            ),
            velocity: Velocity {
                velocity: bounce_velocity(
                    body.velocity.velocity.x as int,
                    body.velocity.velocity.y as int,
                    wx,
                    wy,
                    body.ball.bounciness as int,
                ),
            },
            ..body
        }
    }
}

/// The drop-axis speed after `dt` microseconds of gravity: it falls by `GRAVITY * dt` and
/// stops falling at `-MAX_SPEED`.
pub open spec fn fall_speed(vy: int, dt: int) -> int {
    max(vy - (GRAVITY * dt) / (MICROS_PER_SECOND as int), -MAX_SPEED)
}

/// The ball after `dt` microseconds of free flight: gravity acts on the drop-axis speed
/// first, then the ball moves at the new velocity.
pub open spec fn integrate(body: BallBody, dt: u64) -> BallBody {
    let vx = body.velocity.velocity.x as int;
    let vy = fall_speed(body.velocity.velocity.y as int, dt as int);
    BallBody {
        position: Vec2::saturated(
            body.position.x + div_trunc(vx * dt, MICROS_PER_SECOND as int),
            body.position.y + div_trunc(vy * dt, MICROS_PER_SECOND as int),
        ),
        velocity: Velocity { velocity: Vec2 { x: vx as i32, y: vy as i32 } },
        ..body
    }
}

/// Every ball after `dt` microseconds of free flight.
pub open spec fn integrate_all(balls: Seq<BallBody>, dt: u64) -> Seq<BallBody> {
    Seq::new(balls.len(), |i: int| integrate(balls[i], dt))
}

/// The balls after the subject of `event` bounced at its contact point. An event whose
/// subject is not among the balls changes nothing.
pub open spec fn apply_event(balls: Seq<BallBody>, event: CollisionEvent) -> Seq<BallBody> {
    Seq::new(
        balls.len(),
        |i: int|
            if balls[i].entity == event.entity1 {
                bounce(balls[i], event.collision_point)
            } else {
                balls[i]
            },
    )
}

/// The balls after every event was applied, first event first.
pub open spec fn resolve_collisions(balls: Seq<BallBody>, events: Seq<CollisionEvent>) -> Seq<
    BallBody,
>
    decreases events.len(),
{
    if events.len() == 0 {
        balls
    } else {
        apply_event(resolve_collisions(balls, events.drop_last()), events.last())
    }
}

/// Moves one ball through `dt` microseconds of free flight.
pub fn move_ball(body: &BallBody, dt: u64) -> (moved: BallBody)
    ensures
        moved == integrate(*body, dt),
{
    let t: i128 = dt as i128;
    let second: i128 = MICROS_PER_SECOND as i128;
    let fall: i128 = GRAVITY as i128 * t / second;
    let vx: i128 = body.velocity.velocity.x as i128;
    let mut vy: i128 = body.velocity.velocity.y as i128 - fall;
    if vy < -(MAX_SPEED as i128) {
        vy = -(MAX_SPEED as i128);
    }
    proof {
        lemma_product_bound(vx as int, t as int, 0x8000_0000, 0x1_0000_0000_0000_0000);
        lemma_product_bound(vy as int, t as int, 0x8000_0000, 0x1_0000_0000_0000_0000);
    }
    let px: i128 = body.position.x as i128 + vx * t / second;
    let py: i128 = body.position.y as i128 + vy * t / second;
    BallBody {
        entity: body.entity,
        ball: body.ball,
        position: Vec2 { x: saturate_i32(px), y: saturate_i32(py) },
        velocity: Velocity { velocity: Vec2 { x: vx as i32, y: vy as i32 } },
    }
}

/// Movement stage: lets gravity act on every ball and moves it.
pub fn balls_update(dt: u64, balls: &mut Vec<BallBody>)
    ensures
        final(balls)@ == integrate_all(old(balls)@, dt),
{
    let n = balls.len();
    let mut i: usize = 0;
    while i < n
        invariant
            i <= n,
            balls.len() == n,
            old(balls).len() == n,
            forall|j: int| 0 <= j < i ==> balls@[j] == integrate(old(balls)@[j], dt),
            forall|j: int| i <= j < n ==> balls@[j] == old(balls)@[j],
        decreases n - i,
    {
        let moved = move_ball(&balls[i], dt);
        balls[i] = moved;
        i += 1;
    }
    assert(balls@ =~= integrate_all(old(balls)@, dt));
}

/// Lets one ball bounce at a contact point.
pub fn bounce_ball(body: &BallBody, collision_point: &Vec2) -> (bounced: BallBody)
    ensures
        bounced == bounce(*body, *collision_point),
{
    let wx: i64 = body.position.x as i64 - collision_point.x as i64;
    let wy: i64 = body.position.y as i64 - collision_point.y as i64;
    let vx: i128 = body.velocity.velocity.x as i128;
    let vy: i128 = body.velocity.velocity.y as i128;
    proof {
        lemma_square_bound(wx as int, 0x1_0000_0000);
        lemma_square_bound(wy as int, 0x1_0000_0000);
        lemma_square_bound(vx as int, 0x8000_0000);
        lemma_square_bound(vy as int, 0x8000_0000);
        lemma_product_bound(vx as int, wx as int, 0x8000_0000, 0x1_0000_0000);
        lemma_product_bound(vy as int, wy as int, 0x8000_0000, 0x1_0000_0000);
    }
    let q: i128 = wx as i128 * wx as i128 + wy as i128 * wy as i128;
    if q == 0 {
        return *body;
    }
    let s: i128 = vx * wx as i128 + vy * wy as i128;
    proof {
        lemma_product_bound(vx as int, q as int, 0x8000_0000, 0x2_0000_0000_0000_0000);
        lemma_product_bound(vy as int, q as int, 0x8000_0000, 0x2_0000_0000_0000_0000);
        lemma_product_bound(2 * s, wx as int, 0x2_0000_0000_0000_0000, 0x1_0000_0000);
        lemma_product_bound(2 * s, wy as int, 0x2_0000_0000_0000_0000, 0x1_0000_0000);
    }
    let rx: i128 = (vx * q - 2 * s * wx as i128) / q;
    let ry: i128 = (vy * q - 2 * s * wy as i128) / q;
    let b: i128 = body.ball.bounciness as i128;
    proof {
        lemma_reflect_no_longer(vx as int, vy as int, wx as int, wy as int);
        assert(rx == reflect_component(vx as int, wx as int, s as int, q as int));
        assert(ry == reflect_component(vy as int, wy as int, s as int, q as int));
        assert(-0x1_0000_0000 <= rx <= 0x1_0000_0000 && -0x1_0000_0000 <= ry <= 0x1_0000_0000)
            by (nonlinear_arith)
            requires
                rx * rx + ry * ry <= 0x8000_0000_0000_0000,
        ;
        lemma_product_bound(rx as int, b as int, 0x1_0000_0000, 0x8000_0000);
        lemma_product_bound(ry as int, b as int, 0x1_0000_0000, 0x8000_0000);
    }
    let scale: i128 = SCALE as i128;
    let ox = scale_along(wx, body.ball.radius as i64, q as u128);
    let oy = scale_along(wy, body.ball.radius as i64, q as u128);
    BallBody {
        entity: body.entity,
        ball: body.ball,
        position: Vec2 {
            x: saturate_i32(collision_point.x as i128 + ox as i128),
            y: saturate_i32(collision_point.y as i128 + oy as i128),
        },
        velocity: Velocity {
            velocity: Vec2 { x: saturate_i32(rx * b / scale), y: saturate_i32(ry * b / scale) },
        },
    }
}

/// Resolution stage: applies the events in the order given. The ball that an event names
/// as its subject bounces at the event's contact point; an event whose subject is gone is
/// skipped.
pub fn balls_collision_resolution(collision_events: &Vec<CollisionEvent>, balls: &mut Vec<BallBody>)
    ensures
        final(balls)@ == resolve_collisions(old(balls)@, collision_events@),
{
    let n = balls.len();
    let mut k: usize = 0;
    while k < collision_events.len()
        invariant
            k <= collision_events.len(),
            balls.len() == n,
            balls@ == resolve_collisions(old(balls)@, collision_events@.take(k as int)),
        decreases collision_events.len() - k,
    {
        let event = collision_events[k];
        let ghost before = balls@;
        let mut i: usize = 0;
        while i < n
            invariant
                i <= n,
                balls.len() == n,
                before.len() == n,
                forall|j: int| 0 <= j < i ==> balls@[j] == apply_event(before, event)[j],
                forall|j: int| i <= j < n ==> balls@[j] == before[j],
            decreases n - i,
        {
            if balls[i].entity == event.entity1 {
                let bounced = bounce_ball(&balls[i], &event.collision_point);
                balls[i] = bounced;
            }
            i += 1;
        }
        proof {
            let upto = collision_events@.take(k as int + 1);
            assert(upto.drop_last() =~= collision_events@.take(k as int));
            assert(upto.last() == event);
            assert(balls@ =~= apply_event(before, event));
        }
        k += 1;
    }
    assert(collision_events@.take(k as int) =~= collision_events@);
}

/// Narrow phase for a ball and a wall.
pub fn ball_rect_collision(
    ball: &Ball,
    ball_transform: &Vec2,
    rect: &Rectangle,
    rect_transform: &Vec2,
) -> (contact: Option<Vec2>)
    requires
        rect.wf(),
    ensures
        contact == ball_rect_contact(*ball, *ball_transform, *rect, *rect_transform),
{
    let mut px: i64 = ball_transform.x as i64;
    let mut py: i64 = ball_transform.y as i64;
    let left: i64 = rect_transform.x as i64 - (rect.width / 2) as i64;
    let right: i64 = rect_transform.x as i64 + (rect.width / 2) as i64;
    let bottom: i64 = rect_transform.y as i64 - (rect.height / 2) as i64;
    let top: i64 = rect_transform.y as i64 + (rect.height / 2) as i64;
    if px < left {
        px = left;
    }
    if px > right {
        px = right;
    }
    if py < bottom {
        py = bottom;
    }
    if py > top {
        py = top;
    }
    let dx: i128 = (ball_transform.x as i64 - px) as i128;
    let dy: i128 = (ball_transform.y as i64 - py) as i128;
    let radius: i128 = ball.radius as i128;
    proof {
        lemma_square_bound(dx as int, 0x1_0000_0000);
        lemma_square_bound(dy as int, 0x1_0000_0000);
        lemma_square_bound(radius as int, 0x1_0000_0000);
    }
    if dx * dx + dy * dy < radius * radius {
        Some(Vec2 { x: px as i32, y: py as i32 })
    } else {
        None
    }
}

/// Narrow phase for two balls.
pub fn ball_ball_collision(
    ball_1: &Ball,
    ball_1_transform: &Vec2,
    ball_2: &Ball,
    ball_2_transform: &Vec2,
) -> (contact: Option<Vec2>)
    requires
        ball_1.radius > 0,
        ball_2.radius > 0,
    ensures
        contact == ball_ball_contact(*ball_1, *ball_1_transform, *ball_2, *ball_2_transform),
{
    let vx: i64 = ball_1_transform.x as i64 - ball_2_transform.x as i64;
    let vy: i64 = ball_1_transform.y as i64 - ball_2_transform.y as i64;
    let radius_sum: i64 = ball_1.radius as i64 + ball_2.radius as i64;
    proof {
        lemma_square_bound(vx as int, 0x1_0000_0000);
        lemma_square_bound(vy as int, 0x1_0000_0000);
        lemma_square_bound(radius_sum as int, 0x1_0000_0000);
    }
    let q: u128 = (vx as i128 * vx as i128 + vy as i128 * vy as i128) as u128;
    let reach: u128 = (radius_sum as i128 * radius_sum as i128) as u128;
    if 0 < q && q < reach {
        let length = isqrt(q);
        proof {
            lemma_sqrt_floor(q as int);
            if length >= radius_sum {
                assert(radius_sum * radius_sum <= length * length) by (nonlinear_arith)
                    requires
                        0 <= radius_sum <= length,
                ;
            }
        }
        let delta: i64 = (radius_sum - length as i64) / 4;
        let m: i64 = ball_2.radius as i64 - delta;
        let ox = scale_along(vx, m, q);
        let oy = scale_along(vy, m, q);
        Some(
            Vec2 {
                x: saturate_i32(ball_2_transform.x as i128 + ox as i128),
                y: saturate_i32(ball_2_transform.y as i128 + oy as i128),
            },
        )
    } else {
        None
    }
}

/// Two balls of one tier touched: both are to be removed and a ball of `new_tier` is to be
/// created at `position`.
#[derive(Clone, Copy, Debug, PartialEq, Eq, Structural)]
pub struct MergeNotification {
    pub tier_a: u8,
    pub tier_b: u8,
    pub new_tier: u8,
    pub position: Vec2,
}

/// What the ball-ball detection found, as plain sequences.
pub struct Detection {
    /// Contacts of balls of different tiers, two events per contact.
    pub events: Seq<CollisionEvent>,
    /// Contacts of balls of one tier.
    pub merges: Seq<MergeNotification>,
    /// The balls that merged, two per merge.
    pub removed: Seq<BodyId>,
}

/// What the ball-ball detection found.
pub struct BallBallCollisions {
    pub collision_events: Vec<CollisionEvent>,
    pub merges: Vec<MergeNotification>,
    pub removed_entities: Vec<BodyId>,
}

impl View for BallBallCollisions {
    type V = Detection;

    open spec fn view(&self) -> Detection {
        Detection {
            events: self.collision_events@,
            merges: self.merges@,
            removed: self.removed_entities@,
        }
    }
}

/// The tier that two merging balls of tier `tier` make.
pub open spec fn next_tier(tier: u8) -> u8 {
    ((tier + 1) % (crate::platform::NUM_ITEMS as int)) as u8
}

/// The event for a ball touching a wall, if it does.
pub open spec fn wall_event(ball: BallBody, wall: WallBody) -> Seq<CollisionEvent> {
    match ball_rect_contact(ball.ball, ball.position, wall.rectangle, wall.position) {
        Some(p) => seq![
            CollisionEvent { entity1: ball.entity, entity2: wall.entity, collision_point: p },
        ],
        None => seq![],
    }
}

/// The events of one ball with the walls, in the order of the walls.
pub open spec fn ball_wall_events(ball: BallBody, walls: Seq<WallBody>) -> Seq<CollisionEvent>
    decreases walls.len(),
{
    if walls.len() == 0 {
        seq![]
    } else {
        ball_wall_events(ball, walls.drop_last()) + wall_event(ball, walls.last())
    }
}

/// The ball-wall events of a frame: ball by ball, and for each ball wall by wall.
pub open spec fn ball_rect_events(balls: Seq<BallBody>, walls: Seq<WallBody>) -> Seq<
    CollisionEvent,
>
    decreases balls.len(),
{
    if balls.len() == 0 {
        seq![]
    } else {
        ball_rect_events(balls.drop_last(), walls) + ball_wall_events(balls.last(), walls)
    }
}

/// Detection for one pair of balls, `ball_1` being the earlier one.
///
/// A pair with a ball that already merged in this frame is passed over. Touching balls of
/// one tier merge: a notification is added and both are entered as removed. Touching
/// balls of different tiers get one event each, the earlier ball's first.
pub open spec fn detect_pair(found: Detection, ball_1: BallBody, ball_2: BallBody) -> Detection {
    if found.removed.contains(ball_1.entity) || found.removed.contains(ball_2.entity) {
        found
    } else {
        match ball_ball_contact(ball_1.ball, ball_1.position, ball_2.ball, ball_2.position) {
            None => found,
            Some(p) => if ball_1.ball.ball_type == ball_2.ball.ball_type {
                Detection {
                    merges: found.merges.push(
                        MergeNotification {
                            tier_a: ball_1.ball.ball_type,
                            tier_b: ball_2.ball.ball_type,
                            new_tier: next_tier(ball_1.ball.ball_type),
                            position: p,
                        },
                    ),
                    removed: found.removed.push(ball_1.entity).push(ball_2.entity),
                    ..found
                }
            } else {
                Detection {
                    events: found.events.push(
                        CollisionEvent {
                            entity1: ball_1.entity,
                            entity2: ball_2.entity,
                            collision_point: p,
                        },
                    ).push(
                        CollisionEvent {
                            entity1: ball_2.entity,
                            entity2: ball_1.entity,
                            collision_point: p,
                        },
                    ),
                    ..found
                }
            },
        }
    }
}

/// Detection for the pairs of ball `i` with the balls after it and before `j`, in order.
pub open spec fn detect_row(found: Detection, balls: Seq<BallBody>, i: int, j: int) -> Detection
    decreases j - i,
{
    if j <= i + 1 {
        found
    } else {
        detect_pair(detect_row(found, balls, i, j - 1), balls[i], balls[j - 1])
    }
}

/// Detection for all pairs whose earlier ball is before `i`: row by row.
pub open spec fn detect_rows(balls: Seq<BallBody>, i: int) -> Detection
    decreases i,
{
    if i <= 0 {
        Detection { events: seq![], merges: seq![], removed: seq![] }
    } else {
        detect_row(detect_rows(balls, i - 1), balls, i - 1, balls.len() as int)
    }
}

/// Detection over every unordered pair of balls, each pair once and none with itself.
pub open spec fn ball_ball_detection(balls: Seq<BallBody>) -> Detection {
    detect_rows(balls, balls.len() as int)
}

/// Every ball of the sequence is well-formed.
pub open spec fn balls_wf(balls: Seq<BallBody>) -> bool {
    forall|i: int| 0 <= i < balls.len() ==> (#[trigger] balls[i]).ball.wf()
}

/// Every wall of the sequence is well-formed.
pub open spec fn walls_wf(walls: Seq<WallBody>) -> bool {
    forall|i: int| 0 <= i < walls.len() ==> (#[trigger] walls[i]).rectangle.wf()
}

/// Detection stage for balls against walls: one event, directed at the ball, for each
/// ball and wall that touch.
pub fn ball_rect_collision_system(balls: &Vec<BallBody>, rectangles: &Vec<WallBody>) -> (events:
    Vec<CollisionEvent>)
    requires
        walls_wf(rectangles@),
    ensures
        events@ == ball_rect_events(balls@, rectangles@),
{
    let mut events: Vec<CollisionEvent> = Vec::new();
    let mut i: usize = 0;
    while i < balls.len()
        invariant
            i <= balls.len(),
            walls_wf(rectangles@),
            events@ == ball_rect_events(balls@.take(i as int), rectangles@),
        decreases balls.len() - i,
    {
        let body = &balls[i];
        let ghost row_start = events@;
        let mut j: usize = 0;
        while j < rectangles.len()
            invariant
                j <= rectangles.len(),
                i < balls.len(),
                *body == balls@[i as int],
                walls_wf(rectangles@),
                events@ == row_start + ball_wall_events(*body, rectangles@.take(j as int)),
            decreases rectangles.len() - j,
        {
            let wall = &rectangles[j];
            let contact = ball_rect_collision(
                &body.ball,
                &body.position,
                &wall.rectangle,
                &wall.position,
            );
            proof {
                let upto = rectangles@.take(j as int + 1);
                assert(upto.drop_last() =~= rectangles@.take(j as int));
                assert(upto.last() == *wall);
            }
            if let Some(collision_point) = contact {
                events.push(
                    CollisionEvent { entity1: body.entity, entity2: wall.entity, collision_point },
                );
            }
            assert(events@ =~= row_start + ball_wall_events(
                *body,
                rectangles@.take(j as int + 1),
            ));
            j += 1;
        }
        proof {
            assert(rectangles@.take(j as int) =~= rectangles@);
            let upto = balls@.take(i as int + 1);
            assert(upto.drop_last() =~= balls@.take(i as int));
            assert(upto.last() == *body);
        }
        i += 1;
    }
    assert(balls@.take(i as int) =~= balls@);
    events
}

/// Whether `entity` is in the list.
pub fn contains_entity(entities: &Vec<BodyId>, entity: BodyId) -> (found: bool)
    ensures
        found == entities@.contains(entity),
{
    let mut i: usize = 0;
    while i < entities.len()
        invariant
            i <= entities.len(),
            forall|k: int| 0 <= k < i ==> entities@[k] != entity,
        decreases entities.len() - i,
    {
        if entities[i] == entity {
            return true;
        }
        i += 1;
    }
    false
}

/// Detection stage for balls against balls.
///
/// Every pair is looked at once, in the order of the earlier and then of the later ball.
/// See [`detect_pair`] for what a pair adds.
pub fn ball_ball_collision_system(balls: &Vec<BallBody>) -> (found: BallBallCollisions)
    requires
        balls_wf(balls@),
    ensures
        found@ == ball_ball_detection(balls@),
{
    let mut found = BallBallCollisions {
        collision_events: Vec::new(),
        merges: Vec::new(),
        removed_entities: Vec::new(),
    };
    let n = balls.len();
    let mut i: usize = 0;
    while i < n
        invariant
            i <= n,
            n == balls.len(),
            balls_wf(balls@),
            found@ == detect_rows(balls@, i as int),
        decreases n - i,
    {
        let ghost row_start = found@;
        let mut j: usize = i + 1;
        while j < n
            invariant
                i < n,
                i + 1 <= j <= n,
                n == balls.len(),
                balls_wf(balls@),
                found@ == detect_row(row_start, balls@, i as int, j as int),
            decreases n - j,
        {
            let ball_1 = &balls[i];
            let ball_2 = &balls[j];
            let ghost before = found@;
            if !contains_entity(&found.removed_entities, ball_1.entity) && !contains_entity(
                &found.removed_entities,
                ball_2.entity,
            ) {
                let contact = ball_ball_collision(
                    &ball_1.ball,
                    &ball_1.position,
                    &ball_2.ball,
                    &ball_2.position,
                );
                if let Some(collision_point) = contact {
                    if ball_1.ball.ball_type == ball_2.ball.ball_type {
                        found.merges.push(
                            MergeNotification {
                                tier_a: ball_1.ball.ball_type,
                                tier_b: ball_2.ball.ball_type,
                                new_tier: (ball_1.ball.ball_type + 1) % crate::platform::NUM_ITEMS,
                                position: collision_point,
                            },
                        );
                        found.removed_entities.push(ball_1.entity);
                        found.removed_entities.push(ball_2.entity);
                    } else {
                        found.collision_events.push(
                            CollisionEvent {
                                entity1: ball_1.entity,
                                entity2: ball_2.entity,
                                collision_point,
                            },
                        );
                        found.collision_events.push(
                            CollisionEvent {
                                entity1: ball_2.entity,
                                entity2: ball_1.entity,
                                collision_point,
                            },
                        );
                    }
                }
            }
            assert(found@ == detect_pair(before, *ball_1, *ball_2));
            j += 1;
        }
        i += 1;
    }
    found
}

} // verus!
