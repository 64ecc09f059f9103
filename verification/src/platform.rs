//! Tiers of balls, the creation of balls from spawn requests, and the platform that drops
//! balls into the game.

use crate::fixed::{div_trunc, lemma_product_bound, saturate, saturate_i32, MICROS_PER_SECOND, SCALE};
use crate::physics::{Ball, BallBody, BodyId, Vec2, Velocity};
use rand::Rng;
use vstd::prelude::*;

verus! {

/// Number of tiers.
pub const NUM_ITEMS: u8 = 5;

/// Where a ball is dropped, relative to the platform: one unit below it.
pub const SPAWN_OFFSET_X: i32 = 0;

/// See [`SPAWN_OFFSET_X`].
pub const SPAWN_OFFSET_Y: i32 = -1_000_000;

/// The lowest tier that the platform drops.
pub const SPAWN_RANGE_START: u8 = 0;

/// The tier above the highest tier that the platform drops.
pub const SPAWN_RANGE_END: u8 = 2;

/// Time between two drops, in microseconds.
pub const SPAWN_INTERVAL: u64 = 1_000_000;

/// Lateral speed of the platform, in sub-units per second.
pub const PLATFORM_SPEED: i32 = 100_000_000;

/// Where the platform starts: over the middle of the field, at its upper edge.
pub const PLATFORM_START_X: i32 = 50_000_000;

/// See [`PLATFORM_START_X`].
pub const PLATFORM_START_Y: i32 = 100_000_000;

/// Radius of the balls of the lowest tier, in sub-units. The radii grow with the tier.
pub const ITEM_1_RADIUS: i32 = 5_000_000;

/// Bounciness of the balls of the lowest tier, in `1 / SCALE` steps. The bounciness falls
/// with the tier.
pub const ITEM_1_BOUNCINESS: i32 = 500_000;

/// Radius of the second tier.
pub const ITEM_2_RADIUS: i32 = 8_000_000;

/// Bounciness of the second tier.
pub const ITEM_2_BOUNCINESS: i32 = 400_000;

/// Radius of the third tier.
pub const ITEM_3_RADIUS: i32 = 13_000_000;

/// Bounciness of the third tier.
pub const ITEM_3_BOUNCINESS: i32 = 300_000;

/// Radius of the fourth tier.
pub const ITEM_4_RADIUS: i32 = 16_000_000;

/// Bounciness of the fourth tier.
pub const ITEM_4_BOUNCINESS: i32 = 200_000;

/// Radius of the highest tier.
pub const ITEM_5_RADIUS: i32 = 19_000_000;

/// Bounciness of the highest tier.
pub const ITEM_5_BOUNCINESS: i32 = 100_000;

/// Why a value was not accepted into the simulation.
#[derive(Clone, Copy, Debug, PartialEq, Eq, Structural)]
pub enum ValidationError {
    /// A radius is zero or negative.
    InvalidRadius,
    /// A bounciness is negative or above one.
    InvalidBounciness,
    /// A tier is not below [`NUM_ITEMS`].
    InvalidTier,
    /// A wall's width or height is negative.
    InvalidExtent,
    /// No identity is left to give out.
    OutOfIdentities,
}

/// A request to create a ball of tier `item_type` at `position`.
#[derive(Clone, Copy, Debug, PartialEq, Eq, Structural)]
pub struct SpawnItemEvent {
    pub item_type: u8,
    pub position: Vec2,
}

/// Size and material of the balls of one tier.
#[derive(Clone, Copy, Debug, PartialEq, Eq, Structural)]
pub struct ItemResource {
    pub radius: i32,
    pub bounciness: i32,
}

/// The catalog of tiers, indexed by tier.
#[derive(Clone, Copy, Debug)]
pub struct ItemsResources {
    pub resources: [ItemResource; 5],
}

impl ItemResource {
    /// The radius is positive and the bounciness a fraction of one.
    pub open spec fn wf(self) -> bool {
        self.radius > 0 && 0 <= self.bounciness <= SCALE
    }

    /// What is wrong with the entry, the radius being looked at first.
    pub open spec fn error(self) -> Option<ValidationError> {
        if self.radius <= 0 {
            Some(ValidationError::InvalidRadius)
        } else if self.bounciness < 0 || self.bounciness > SCALE {
            Some(ValidationError::InvalidBounciness)
        } else {
            None
        }
    }
}

impl ItemsResources {
    /// Every tier's entry is well-formed.
    pub open spec fn wf(self) -> bool {
        forall|tier: int| 0 <= tier < NUM_ITEMS ==> (#[trigger] self.resources@[tier]).wf()
    }

    /// The catalog that the game is played with.
    pub open spec fn reference() -> Seq<ItemResource> {
        seq![
            ItemResource { radius: ITEM_1_RADIUS, bounciness: ITEM_1_BOUNCINESS },
            ItemResource { radius: ITEM_2_RADIUS, bounciness: ITEM_2_BOUNCINESS },
            ItemResource { radius: ITEM_3_RADIUS, bounciness: ITEM_3_BOUNCINESS },
            ItemResource { radius: ITEM_4_RADIUS, bounciness: ITEM_4_BOUNCINESS },
            ItemResource { radius: ITEM_5_RADIUS, bounciness: ITEM_5_BOUNCINESS },
        ]
    }

    /// The error of the lowest tier whose entry is not well-formed, if there is one.
    pub open spec fn error(self) -> Option<ValidationError> {
        if self.wf() {
            None
        } else {
            let tier = choose|tier: int|
                0 <= tier < NUM_ITEMS && !(#[trigger] self.resources@[tier]).wf() && forall|
                    lower: int,
                | 0 <= lower < tier ==> (#[trigger] self.resources@[lower]).wf();
            self.resources@[tier].error()
        }
    }

    /// Shape and material of a ball of the given tier.
    pub open spec fn ball(self, tier: u8) -> Ball {
        Ball {
            radius: self.resources@[tier as int].radius,
            bounciness: self.resources@[tier as int].bounciness,
            ball_type: tier,
        }
    }

    /// Checks every entry.
    pub fn validate(&self) -> (checked: Result<(), ValidationError>)
        ensures
            checked is Ok <==> self.wf(),
            checked is Err ==> Some(checked->Err_0) == self.error(),
    {
        let mut tier: usize = 0;
        while tier < 5
            invariant
                tier <= 5,
                forall|lower: int| 0 <= lower < tier ==> (#[trigger] self.resources@[lower]).wf(),
            decreases 5 - tier,
        {
            let entry = &self.resources[tier];
            if entry.radius <= 0 || entry.bounciness < 0 || entry.bounciness > SCALE {
                proof {
                    let first = choose|first: int|
                        0 <= first < NUM_ITEMS && !(#[trigger] self.resources@[first]).wf()
                            && forall|lower: int|
                            0 <= lower < first ==> (#[trigger] self.resources@[lower]).wf();
                    assert(!self.resources@[tier as int].wf());
                    assert(first == tier);
                }
                if entry.radius <= 0 {
                    return Err(ValidationError::InvalidRadius);
                }
                return Err(ValidationError::InvalidBounciness);
            }
            tier += 1;
        }
        Ok(())
    }

    /// Builds the ball of the given tier.
    pub fn make_ball(&self, tier: u8) -> (ball: Ball)
        requires
            tier < NUM_ITEMS,
        ensures
            ball == self.ball(tier),
    {
        let entry = &self.resources[tier as usize];
        Ball { radius: entry.radius, bounciness: entry.bounciness, ball_type: tier }
    }
}

/// The catalog that the game is played with.
pub fn init() -> (items: ItemsResources)
    ensures
        items.wf(),
        items.resources@ == ItemsResources::reference(),
{
    let items = ItemsResources {
        resources: [
            ItemResource { radius: ITEM_1_RADIUS, bounciness: ITEM_1_BOUNCINESS },
            ItemResource { radius: ITEM_2_RADIUS, bounciness: ITEM_2_BOUNCINESS },
            ItemResource { radius: ITEM_3_RADIUS, bounciness: ITEM_3_BOUNCINESS },
            ItemResource { radius: ITEM_4_RADIUS, bounciness: ITEM_4_BOUNCINESS },
            ItemResource { radius: ITEM_5_RADIUS, bounciness: ITEM_5_BOUNCINESS },
        ],
    };
    assert(items.resources@ =~= ItemsResources::reference());
    items
}

/// The ball that a spawn request creates under the identity `entity`: a ball of the
/// requested tier, at rest at the requested position.
pub open spec fn spawned_ball(items: ItemsResources, event: SpawnItemEvent, entity: BodyId) -> BallBody {
    BallBody {
        entity,
        ball: items.ball(event.item_type),
        position: event.position,
        velocity: Velocity { velocity: Vec2 { x: 0, y: 0 } },
    }
}

/// The balls that a list of spawn requests creates, identities counting up from `first`.
pub open spec fn spawned_balls(
    items: ItemsResources,
    events: Seq<SpawnItemEvent>,
    first: BodyId,
) -> Seq<BallBody> {
    Seq::new(events.len(), |k: int| spawned_ball(items, events[k], (first + k) as BodyId))
}

/// Every request asks for a tier that exists.
pub open spec fn spawn_events_wf(events: Seq<SpawnItemEvent>) -> bool {
    forall|k: int| 0 <= k < events.len() ==> (#[trigger] events[k]).item_type < NUM_ITEMS
}

/// Creates the requested balls and appends them to `balls`, in the order of the requests.
/// The balls get the identities from `first_entity` on.
///
/// The requests are taken all or none. A list with a request for a tier that does not
/// exist is rejected, and so is a list for which the identities from `first_entity` on do
/// not suffice; `balls` is then left as it is.
pub fn spawn_items(
    items_resources: &ItemsResources,
    spawn_item_events: &Vec<SpawnItemEvent>,
    first_entity: BodyId,
    balls: &mut Vec<BallBody>,
) -> (spawned: Result<(), ValidationError>)
    ensures
        !spawn_events_wf(spawn_item_events@) ==> spawned == Err::<(), ValidationError>(
            ValidationError::InvalidTier,
        ),
        spawn_events_wf(spawn_item_events@) && first_entity + spawn_item_events.len() > u64::MAX
            ==> spawned == Err::<(), ValidationError>(ValidationError::OutOfIdentities),
        spawn_events_wf(spawn_item_events@) && first_entity + spawn_item_events.len() <= u64::MAX
            ==> spawned == Ok::<(), ValidationError>(()),
        spawned is Err ==> final(balls)@ == old(balls)@,
        spawned is Ok ==> final(balls)@ == old(balls)@ + spawned_balls(
            *items_resources,
            spawn_item_events@,
            first_entity,
        ),
{
    let mut checked: usize = 0;
    while checked < spawn_item_events.len()
        invariant
            checked <= spawn_item_events.len(),
            balls@ == old(balls)@,
            forall|j: int| 0 <= j < checked ==> (#[trigger] spawn_item_events@[j]).item_type < NUM_ITEMS,
        decreases spawn_item_events.len() - checked,
    {
        if spawn_item_events[checked].item_type >= NUM_ITEMS {
            return Err(ValidationError::InvalidTier);
        }
        checked += 1;
    }
    if first_entity as u128 + spawn_item_events.len() as u128 > u64::MAX as u128 {
        return Err(ValidationError::OutOfIdentities);
    }
    let mut k: usize = 0;
    while k < spawn_item_events.len()
        invariant
            k <= spawn_item_events.len(),
            spawn_events_wf(spawn_item_events@),
            first_entity + spawn_item_events.len() <= u64::MAX,
            balls@ == old(balls)@ + spawned_balls(
                *items_resources,
                spawn_item_events@.take(k as int),
                first_entity,
            ),
        decreases spawn_item_events.len() - k,
    {
        let event = &spawn_item_events[k];
        let ball = items_resources.make_ball(event.item_type);
        balls.push(
            BallBody {
                entity: first_entity + k as u64,
                ball,
                position: event.position,
                velocity: Velocity { velocity: Vec2 { x: 0, y: 0 } },
            },
        );
        assert(balls@ =~= old(balls)@ + spawned_balls(
            *items_resources,
            spawn_item_events@.take(k as int + 1),
            first_entity,
        ));
        k += 1;
    }
    assert(spawn_item_events@.take(k as int) =~= spawn_item_events@);
    Ok(())
}

/// The platform that the player moves and drops balls from.
#[derive(Clone, Copy, Debug, PartialEq, Eq, Structural)]
pub struct Platform {
    /// Lateral speed, in sub-units per second.
    pub speed: i32,
    /// Tier of the ball that is dropped next.
    pub next_item: u8,
}

/// The keys that the platform obeys, each `true` while it is held down.
#[derive(Clone, Copy, Debug, PartialEq, Eq, Structural)]
pub struct Keys {
    pub left: bool,
    pub right: bool,
    pub drop: bool,
}

/// A repeating timer of period [`SPAWN_INTERVAL`] that paces the drops.
#[derive(Clone, Copy, Debug, PartialEq, Eq, Structural)]
pub struct SpawnItemTimer {
    /// Microseconds since the timer last finished.
    pub elapsed: u64,
    /// Whether the last tick reached the end of a period.
    pub finished: bool,
}

/// Ticks a repeating timer. Calls `bevy::time::Timer::tick` on a timer that is running,
/// repeats with the period `duration` and has run for `elapsed`, all in microseconds.
///
/// The timer adds `delta` to the time it has run. Where that reaches the period, the timer
/// is finished for this tick and keeps the remainder by the period; else it is not
/// finished. Returned are the time the timer has run after the tick and whether it is
/// finished. The period is limited so that it can be told in nanoseconds, which the timer
/// counts in.
#[verifier::external_body]
fn tick_repeating(duration: u64, elapsed: u64, delta: u64) -> (ticked: (u64, bool))
    requires
        0 < duration <= 18_000_000_000_000_000,
    ensures
        ticked.0 == (elapsed + delta) % (duration as int),
        ticked.1 == (elapsed + delta >= duration),
{
    let mut timer = bevy::time::Timer::new(
        std::time::Duration::from_micros(duration),
        bevy::time::TimerMode::Repeating,
    );
    timer.set_elapsed(std::time::Duration::from_micros(elapsed));
    timer.tick(std::time::Duration::from_micros(delta));
    (timer.elapsed().as_micros() as u64, timer.finished())
}

/// Draws a tier at random. Calls `rand::Rng::gen_range` on the thread's generator with
/// the range `low..high`, which gives some value of the range.
#[verifier::external_body]
fn random_item(low: u8, high: u8) -> (item: u8)
    requires
        low < high,
    ensures
        low <= item < high,
{
    rand::thread_rng().gen_range(low..high)
}

impl Platform {
    /// The platform as the game starts: at its speed, holding a ball of the lowest tier.
    pub fn start() -> (platform: Platform)
        ensures
            platform == (Platform { speed: PLATFORM_SPEED, next_item: 0 }),
    {
        Platform { speed: PLATFORM_SPEED, next_item: 0 }
    }

    /// Where the platform is as the game starts.
    pub fn start_position() -> (position: Vec2)
        ensures
            position == (Vec2 { x: PLATFORM_START_X, y: PLATFORM_START_Y }),
    {
        Vec2 { x: PLATFORM_START_X, y: PLATFORM_START_Y }
    }
}

impl Default for SpawnItemTimer {
    fn default() -> (timer: Self)
        ensures
            timer == (SpawnItemTimer { elapsed: 0, finished: false }),
    {
        SpawnItemTimer { elapsed: 0, finished: false }
    }
}

impl SpawnItemTimer {
    /// Lets `delta` microseconds pass. The timer is finished after the tick if it reached
    /// the end of a period during it, and it starts the next period with what was left over.
    pub fn tick(&mut self, delta: u64)
        ensures
            final(self).finished == (old(self).elapsed + delta >= SPAWN_INTERVAL),
            final(self).elapsed == (old(self).elapsed + delta) % (SPAWN_INTERVAL as int),
    {
        let (elapsed, finished) = tick_repeating(SPAWN_INTERVAL, self.elapsed, delta);
        self.elapsed = elapsed;
        self.finished = finished;
    }
}

/// How far the platform moves in `delta` microseconds: at its speed to the right while the
/// right key is held, else to the left while the left key is held, else not at all.
pub open spec fn platform_shift(speed: int, keys: Keys, delta: int) -> int {
    if keys.right {
        div_trunc(speed * delta, MICROS_PER_SECOND as int)
    } else if keys.left {
        -div_trunc(speed * delta, MICROS_PER_SECOND as int)
    } else {
        0
    }
}

/// The request that the platform makes when it drops a ball: a ball of the tier it holds,
/// at the drop offset from where the platform is.
pub open spec fn dropped_item(platform: Platform, position: Vec2) -> SpawnItemEvent {
    SpawnItemEvent {
        item_type: platform.next_item,
        position: Vec2::saturated(position.x + SPAWN_OFFSET_X, position.y + SPAWN_OFFSET_Y),
    }
}

/// One frame of the platform, given whether its timer is finished and the tier `drawn`
/// for the ball after the next.
///
/// The platform drops a ball when the drop key is held and the timer is finished; it
/// then holds a ball of the tier `drawn`. After that it moves; the ball is dropped from
/// where the platform was before.
pub fn drop_and_move(
    platform: &mut Platform,
    platform_transform: &mut Vec2,
    keys: &Keys,
    delta: u64,
    timer_finished: bool,
    drawn: u8,
) -> (event: Option<SpawnItemEvent>)
    ensures
        event == if keys.drop && timer_finished {
            Some(dropped_item(*old(platform), *old(platform_transform)))
        } else {
            None
        },
        *final(platform) == (Platform {
            next_item: if keys.drop && timer_finished {
                drawn
            } else {
                old(platform).next_item
            },
            ..*old(platform)
        }),
        *final(platform_transform) == (Vec2 {
            x: saturate(
                old(platform_transform).x + platform_shift(
                    old(platform).speed as int,
                    *keys,
                    delta as int,
                ),
            ) as i32,
            ..*old(platform_transform)
        }),
{
    let mut event: Option<SpawnItemEvent> = None;
    if keys.drop && timer_finished {
        event = Some(
            SpawnItemEvent {
                item_type: platform.next_item,
                position: Vec2 {
                    x: saturate_i32(platform_transform.x as i128 + SPAWN_OFFSET_X as i128),
                    y: saturate_i32(platform_transform.y as i128 + SPAWN_OFFSET_Y as i128),
                },
            },
        );
        platform.next_item = drawn;
    }
    proof {
        lemma_product_bound(
            platform.speed as int,
            delta as int,
            0x8000_0000,
            0x1_0000_0000_0000_0000,
        );
    }
    let step: i128 = platform.speed as i128 * delta as i128 / MICROS_PER_SECOND as i128;
    if keys.right {
        platform_transform.x = saturate_i32(platform_transform.x as i128 + step);
    } else if keys.left {
        platform_transform.x = saturate_i32(platform_transform.x as i128 - step);
    }
    event
}

/// One frame of the platform: the timer ticks, a ball is dropped if the drop key is held
/// and the timer is finished, and the platform moves.
///
/// After a drop the platform holds a ball of a tier drawn at random from
/// `SPAWN_RANGE_START..SPAWN_RANGE_END`.
pub fn spawn_controller(
    delta: u64,
    keys: &Keys,
    spawn_item_timer: &mut SpawnItemTimer,
    platform: &mut Platform,
    platform_transform: &mut Vec2,
) -> (event: Option<SpawnItemEvent>)
    ensures
        final(spawn_item_timer).finished == (old(spawn_item_timer).elapsed + delta
            >= SPAWN_INTERVAL),
        final(spawn_item_timer).elapsed == (old(spawn_item_timer).elapsed + delta) % (
        SPAWN_INTERVAL as int),
        event == if keys.drop && final(spawn_item_timer).finished {
            Some(dropped_item(*old(platform), *old(platform_transform)))
        } else {
            None
        },
        final(platform).speed == old(platform).speed,
        event is Some ==> SPAWN_RANGE_START <= final(platform).next_item < SPAWN_RANGE_END,
        event is None ==> final(platform).next_item == old(platform).next_item,
        *final(platform_transform) == (Vec2 {
            x: saturate(
                old(platform_transform).x + platform_shift(
                    old(platform).speed as int,
                    *keys,
                    delta as int,
                ),
            ) as i32,
            ..*old(platform_transform)
        }),
{
    spawn_item_timer.tick(delta);
    let finished = spawn_item_timer.finished;
    let drawn = if keys.drop && finished {
        random_item(SPAWN_RANGE_START, SPAWN_RANGE_END)
    } else {
        platform.next_item
    };
    drop_and_move(platform, platform_transform, keys, delta, finished, drawn)
}

} // verus!
