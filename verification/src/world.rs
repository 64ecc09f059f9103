//! The body store and the frame step.
//!
//! A [`World`] owns the balls and the walls. [`World::step`] runs one frame: movement,
//! then detection, then resolution, each stage completing before the next begins.

use crate::physics::{
    ball_ball_collision_system, ball_ball_detection, ball_rect_collision_system, ball_rect_events,
    balls_collision_resolution, balls_update, balls_wf, contains_entity, integrate_all,
    resolve_collisions, walls_wf, BallBody, BodyId, CollisionEvent, MergeNotification, Rectangle,
    Vec2, Velocity, WallBody,
};
use crate::platform::{
    spawn_items, spawned_balls, ItemsResources, SpawnItemEvent, ValidationError, NUM_ITEMS,
};
use crate::world_lemmas::{
    lemma_remaining, lemma_remove_absent, lemma_remove_none, lemma_remove_present, lemma_step_wf,
};
use vstd::prelude::*;

verus! {

/// The contents of a [`World`].
pub struct WorldView {
    pub balls: Seq<BallBody>,
    pub walls: Seq<WallBody>,
    pub items: ItemsResources,
    /// The identity that the next body gets. Every body has a smaller one.
    pub next_entity: BodyId,
}

/// What one frame did, for an observer.
pub struct FrameReport {
    /// The merges, in the order of their detection.
    pub merges: Vec<MergeNotification>,
    /// The collision events, in the order of their resolution.
    pub events: Vec<CollisionEvent>,
}

/// The balls and walls of a simulation, and the catalog that new balls are made from.
pub struct World {
    balls: Vec<BallBody>,
    walls: Vec<WallBody>,
    items: ItemsResources,
    next_entity: BodyId,
}

/// Whether a ball has the identity `entity`.
pub open spec fn has_ball(balls: Seq<BallBody>, entity: BodyId) -> bool {
    exists|i: int| 0 <= i < balls.len() && (#[trigger] balls[i]).entity == entity
}

/// Whether a wall has the identity `entity`.
pub open spec fn has_wall(walls: Seq<WallBody>, entity: BodyId) -> bool {
    exists|i: int| 0 <= i < walls.len() && (#[trigger] walls[i]).entity == entity
}

/// No two balls share an identity.
pub open spec fn distinct_balls(balls: Seq<BallBody>) -> bool {
    forall|i: int, j: int|
        0 <= i < j < balls.len() ==> (#[trigger] balls[i]).entity != (#[trigger] balls[j]).entity
}

/// No two walls share an identity.
pub open spec fn distinct_walls(walls: Seq<WallBody>) -> bool {
    forall|i: int, j: int|
        0 <= i < j < walls.len() ==> (#[trigger] walls[i]).entity != (#[trigger] walls[j]).entity
}

/// The first ball with the identity `entity`.
pub open spec fn find_ball(balls: Seq<BallBody>, entity: BodyId) -> Option<BallBody>
    decreases balls.len(),
{
    if balls.len() == 0 {
        None
    } else if balls[0].entity == entity {
        Some(balls[0])
    } else {
        find_ball(balls.drop_first(), entity)
    }
}

/// The first wall with the identity `entity`.
pub open spec fn find_wall(walls: Seq<WallBody>, entity: BodyId) -> Option<WallBody>
    decreases walls.len(),
{
    if walls.len() == 0 {
        None
    } else if walls[0].entity == entity {
        Some(walls[0])
    } else {
        find_wall(walls.drop_first(), entity)
    }
}

/// The balls whose identity is not in `removed`, in their order.
pub open spec fn remaining(balls: Seq<BallBody>, removed: Seq<BodyId>) -> Seq<BallBody>
    decreases balls.len(),
{
    if balls.len() == 0 {
        seq![]
    } else if removed.contains(balls.last().entity) {
        remaining(balls.drop_last(), removed)
    } else {
        remaining(balls.drop_last(), removed).push(balls.last())
    }
}

/// The spawn requests that a frame's merges make: one ball of the new tier at each
/// contact point.
pub open spec fn merge_spawns(merges: Seq<MergeNotification>) -> Seq<SpawnItemEvent> {
    Seq::new(
        merges.len(),
        |k: int| SpawnItemEvent { item_type: merges[k].new_tier, position: merges[k].position },
    )
}

impl WorldView {
    /// Bodies are well-formed, identities are unique and below `next_entity`, and enough
    /// identities are left for every merge that the balls present can still make.
    pub open spec fn wf(self) -> bool {
        &&& self.items.wf()
        &&& balls_wf(self.balls)
        &&& walls_wf(self.walls)
        &&& distinct_balls(self.balls)
        &&& distinct_walls(self.walls)
        &&& forall|i: int|
            0 <= i < self.balls.len() ==> !has_wall(self.walls, (#[trigger] self.balls[i]).entity)
        &&& forall|i: int|
            0 <= i < self.balls.len() ==> (#[trigger] self.balls[i]).entity < self.next_entity
        &&& forall|i: int|
            0 <= i < self.walls.len() ==> (#[trigger] self.walls[i]).entity < self.next_entity
        &&& self.next_entity + self.balls.len() <= u64::MAX
    }

    /// The world after one frame of `dt` microseconds.
    ///
    /// Movement: every ball is integrated. Detection, on the moved balls: the ball-wall
    /// events, then the ball-ball events, merges and removals. Resolution: the balls that
    /// merged are removed, the events are applied in the order of their detection to the
    /// balls that are left, and one ball per merge is created.
    pub open spec fn step(self, dt: u64) -> WorldView {
        let moved = integrate_all(self.balls, dt);
        let found = ball_ball_detection(moved);
        let resolved = resolve_collisions(
            remaining(moved, found.removed),
            self.step_events(dt),
        );
        WorldView {
            balls: resolved + spawned_balls(
                self.items,
                merge_spawns(found.merges),
                self.next_entity,
            ),
            next_entity: (self.next_entity + found.merges.len()) as BodyId,
            ..self
        }
    }

    /// The collision events that the frame of `dt` microseconds resolves, in the order of
    /// their resolution: the ball-wall events, then the ball-ball events.
    pub open spec fn step_events(self, dt: u64) -> Seq<CollisionEvent> {
        let moved = integrate_all(self.balls, dt);
        ball_rect_events(moved, self.walls) + ball_ball_detection(moved).events
    }

    /// The merges that the frame of `dt` microseconds makes.
    pub open spec fn step_merges(self, dt: u64) -> Seq<MergeNotification> {
        ball_ball_detection(integrate_all(self.balls, dt)).merges
    }
}

impl View for World {
    type V = WorldView;

    closed spec fn view(&self) -> WorldView {
        WorldView {
            balls: self.balls@,
            walls: self.walls@,
            items: self.items,
            next_entity: self.next_entity,
        }
    }
}

/// Removes the balls whose identity is in `removed`. An identity that no ball has is
/// passed over.
pub fn despawn(balls: &mut Vec<BallBody>, removed: &Vec<BodyId>)
    ensures
        final(balls)@ == remaining(old(balls)@, removed@),
{
    let mut kept: Vec<BallBody> = Vec::new();
    let mut i: usize = 0;
    while i < balls.len()
        invariant
            i <= balls.len(),
            balls@ == old(balls)@,
            kept@ == remaining(balls@.take(i as int), removed@),
        decreases balls.len() - i,
    {
        proof {
            let upto = balls@.take(i as int + 1);
            assert(upto.drop_last() =~= balls@.take(i as int));
            assert(upto.last() == balls@[i as int]);
        }
        if !contains_entity(removed, balls[i].entity) {
            kept.push(balls[i]);
        }
        i += 1;
    }
    assert(balls@.take(i as int) =~= balls@);
    *balls = kept;
}

/// Turns the merges of a frame into spawn requests.
pub fn merge_spawn_events(merges: &Vec<MergeNotification>) -> (events: Vec<SpawnItemEvent>)
    ensures
        events@ == merge_spawns(merges@),
{
    let mut events: Vec<SpawnItemEvent> = Vec::new();
    let mut k: usize = 0;
    while k < merges.len()
        invariant
            k <= merges.len(),
            events@ == merge_spawns(merges@.take(k as int)),
        decreases merges.len() - k,
    {
        events.push(SpawnItemEvent { item_type: merges[k].new_tier, position: merges[k].position });
        assert(events@ =~= merge_spawns(merges@.take(k as int + 1)));
        k += 1;
    }
    assert(merges@.take(k as int) =~= merges@);
    events
}

impl World {
    /// Whether the world is well-formed; see [`WorldView::wf`].
    pub open spec fn wf(&self) -> bool {
        self@.wf()
    }

    /// An empty world with the given catalog. A catalog with an entry that is not
    /// well-formed is rejected.
    pub fn new(items: ItemsResources) -> (made: Result<World, ValidationError>)
        ensures
            made is Ok <==> items.wf(),
            made is Ok ==> made->Ok_0.wf() && made->Ok_0@ == (WorldView {
                balls: seq![],
                walls: seq![],
                items,
                next_entity: 0,
            }),
            made is Err ==> Some(made->Err_0) == items.error(),
    {
        World::starting_at(items, 0)
    }

    /// An empty world whose bodies get the identities from `first_entity` on, for a host
    /// that has given the lower ones to bodies of its own.
    pub fn starting_at(items: ItemsResources, first_entity: BodyId) -> (made: Result<
        World,
        ValidationError,
    >)
        ensures
            made is Ok <==> items.wf(),
            made is Ok ==> made->Ok_0.wf() && made->Ok_0@ == (WorldView {
                balls: seq![],
                walls: seq![],
                items,
                next_entity: first_entity,
            }),
            made is Err ==> Some(made->Err_0) == items.error(),
    {
        match items.validate() {
            Ok(()) => {
                let world = World {
                    balls: Vec::new(),
                    walls: Vec::new(),
                    items,
                    next_entity: first_entity,
                };
                assert(world@.balls =~= seq![]);
                assert(world@.walls =~= seq![]);
                Ok(world)
            },
            Err(e) => Err(e),
        }
    }

    /// How many identities can still be given out: each ball present holds one back for a
    /// merge that it may take part in.
    pub fn identities_left(&self) -> (left: u64)
        requires
            self.wf(),
        ensures
            left == u64::MAX - self@.next_entity - self@.balls.len(),
    {
        u64::MAX - self.next_entity - self.balls.len() as u64
    }

    /// The balls, in the order of their creation.
    pub fn balls(&self) -> (balls: &Vec<BallBody>)
        ensures
            balls@ == self@.balls,
    {
        &self.balls
    }

    /// The walls, in the order of their creation.
    pub fn walls(&self) -> (walls: &Vec<WallBody>)
        ensures
            walls@ == self@.walls,
    {
        &self.walls
    }

    /// The catalog that new balls are made from.
    pub fn items(&self) -> (items: &ItemsResources)
        ensures
            *items == self@.items,
    {
        &self.items
    }

    /// Looks a ball up by its identity.
    pub fn get_ball(&self, entity: BodyId) -> (found: Option<BallBody>)
        ensures
            found == find_ball(self@.balls, entity),
            found is Some <==> has_ball(self@.balls, entity),
    {
        let mut i: usize = 0;
        assert(self.balls@.subrange(0, self.balls.len() as int) =~= self.balls@);
        while i < self.balls.len()
            invariant
                i <= self.balls.len(),
                forall|k: int| 0 <= k < i ==> (#[trigger] self.balls@[k]).entity != entity,
                find_ball(self.balls@, entity) == find_ball(
                    self.balls@.subrange(i as int, self.balls.len() as int),
                    entity,
                ),
            decreases self.balls.len() - i,
        {
            let ghost rest = self.balls@.subrange(i as int, self.balls.len() as int);
            assert(rest[0] == self.balls@[i as int]);
            if self.balls[i].entity == entity {
                return Some(self.balls[i]);
            }
            assert(rest.drop_first() =~= self.balls@.subrange(
                i as int + 1,
                self.balls.len() as int,
            ));
            i += 1;
        }
        assert(self.balls@.subrange(i as int, self.balls.len() as int) =~= seq![]);
        None
    }

    /// Looks a wall up by its identity.
    pub fn get_wall(&self, entity: BodyId) -> (found: Option<WallBody>)
        ensures
            found == find_wall(self@.walls, entity),
            found is Some <==> has_wall(self@.walls, entity),
    {
        let mut i: usize = 0;
        assert(self.walls@.subrange(0, self.walls.len() as int) =~= self.walls@);
        while i < self.walls.len()
            invariant
                i <= self.walls.len(),
                forall|k: int| 0 <= k < i ==> (#[trigger] self.walls@[k]).entity != entity,
                find_wall(self.walls@, entity) == find_wall(
                    self.walls@.subrange(i as int, self.walls.len() as int),
                    entity,
                ),
            decreases self.walls.len() - i,
        {
            let ghost rest = self.walls@.subrange(i as int, self.walls.len() as int);
            assert(rest[0] == self.walls@[i as int]);
            if self.walls[i].entity == entity {
                return Some(self.walls[i]);
            }
            assert(rest.drop_first() =~= self.walls@.subrange(
                i as int + 1,
                self.walls.len() as int,
            ));
            i += 1;
        }
        assert(self.walls@.subrange(i as int, self.walls.len() as int) =~= seq![]);
        None
    }

    /// Creates a ball of the given tier, with the radius and bounciness that the catalog
    /// gives the tier.
    ///
    /// A tier that does not exist is rejected. So is a ball for which no identity is left:
    /// one for the ball itself and one held back for a merge that it may take part in.
    pub fn spawn_ball(&mut self, tier: u8, position: Vec2, velocity: Velocity) -> (spawned: Result<
        BodyId,
        ValidationError,
    >)
        requires
            old(self).wf(),
        ensures
            final(self).wf(),
            tier >= NUM_ITEMS ==> spawned == Err::<BodyId, ValidationError>(
                ValidationError::InvalidTier,
            ),
            tier < NUM_ITEMS && old(self)@.next_entity + old(self)@.balls.len() + 2 > u64::MAX
                ==> spawned == Err::<BodyId, ValidationError>(ValidationError::OutOfIdentities),
            tier < NUM_ITEMS && old(self)@.next_entity + old(self)@.balls.len() + 2 <= u64::MAX
                ==> spawned == Ok::<BodyId, ValidationError>(old(self)@.next_entity),
            spawned is Err ==> final(self)@ == old(self)@,
            spawned is Ok ==> final(self)@ == (WorldView {
                balls: old(self)@.balls.push(
                    BallBody {
                        entity: old(self)@.next_entity,
                        ball: old(self)@.items.ball(tier),
                        position,
                        velocity,
                    },
                ),
                next_entity: (old(self)@.next_entity + 1) as BodyId,
                ..old(self)@
            }),
    {
        if tier >= NUM_ITEMS {
            return Err(ValidationError::InvalidTier);
        }
        if self.next_entity as u128 + self.balls.len() as u128 + 2 > u64::MAX as u128 {
            return Err(ValidationError::OutOfIdentities);
        }
        let entity = self.next_entity;
        let ball = self.items.make_ball(tier);
        self.balls.push(BallBody { entity, ball, position, velocity });
        self.next_entity = entity + 1;
        proof {
            let before = old(self)@;
            let after = self@;
            assert forall|i: int| 0 <= i < after.balls.len() implies !has_wall(
                after.walls,
                (#[trigger] after.balls[i]).entity,
            ) by {
                if i < before.balls.len() {
                    assert(after.balls[i] == before.balls[i]);
                }
            }
            assert forall|i: int, j: int| 0 <= i < j < after.balls.len() implies (
            #[trigger] after.balls[i]).entity != (#[trigger] after.balls[j]).entity by {
                assert(after.balls[i] == before.balls[i]);
                if j < before.balls.len() {
                    assert(after.balls[j] == before.balls[j]);
                }
            }
            assert forall|i: int| 0 <= i < after.balls.len() implies (
            #[trigger] after.balls[i]).ball.wf() by {
                if i < before.balls.len() {
                    assert(after.balls[i] == before.balls[i]);
                }
            }
            assert forall|i: int| 0 <= i < after.balls.len() implies (
            #[trigger] after.balls[i]).entity < after.next_entity by {
                if i < before.balls.len() {
                    assert(after.balls[i] == before.balls[i]);
                }
            }
        }
        Ok(entity)
    }

    /// Creates a wall centred on `position`. A negative width or height is rejected, and
    /// so is a wall for which no identity is left.
    pub fn add_wall(&mut self, position: Vec2, width: i32, height: i32) -> (added: Result<
        BodyId,
        ValidationError,
    >)
        requires
            old(self).wf(),
        ensures
            final(self).wf(),
            width < 0 || height < 0 ==> added == Err::<BodyId, ValidationError>(
                ValidationError::InvalidExtent,
            ),
            width >= 0 && height >= 0 && old(self)@.next_entity + old(self)@.balls.len() + 1
                > u64::MAX ==> added == Err::<BodyId, ValidationError>(
                ValidationError::OutOfIdentities,
            ),
            width >= 0 && height >= 0 && old(self)@.next_entity + old(self)@.balls.len() + 1
                <= u64::MAX ==> added == Ok::<BodyId, ValidationError>(old(self)@.next_entity),
            added is Err ==> final(self)@ == old(self)@,
            added is Ok ==> final(self)@ == (WorldView {
                walls: old(self)@.walls.push(
                    WallBody {
                        entity: old(self)@.next_entity,
                        rectangle: Rectangle { width, height },
                        position,
                    },
                ),
                next_entity: (old(self)@.next_entity + 1) as BodyId,
                ..old(self)@
            }),
    {
        if width < 0 || height < 0 {
            return Err(ValidationError::InvalidExtent);
        }
        if self.next_entity as u128 + self.balls.len() as u128 + 1 > u64::MAX as u128 {
            return Err(ValidationError::OutOfIdentities);
        }
        let entity = self.next_entity;
        self.walls.push(WallBody { entity, rectangle: Rectangle { width, height }, position });
        self.next_entity = entity + 1;
        proof {
            let before = old(self)@;
            let after = self@;
            assert forall|i: int| 0 <= i < after.balls.len() implies !has_wall(
                after.walls,
                (#[trigger] after.balls[i]).entity,
            ) by {
                let e = after.balls[i].entity;
                assert(!has_wall(before.walls, e));
                if has_wall(after.walls, e) {
                    let j = choose|j: int|
                        0 <= j < after.walls.len() && (#[trigger] after.walls[j]).entity == e;
                    if j < before.walls.len() {
                        assert(before.walls[j].entity == e);
                    }
                }
            }
            assert forall|i: int, j: int| 0 <= i < j < after.walls.len() implies (
            #[trigger] after.walls[i]).entity != (#[trigger] after.walls[j]).entity by {
                assert(after.walls[i] == before.walls[i]);
                if j < before.walls.len() {
                    assert(after.walls[j] == before.walls[j]);
                }
            }
            assert forall|i: int| 0 <= i < after.walls.len() implies (
            #[trigger] after.walls[i]).rectangle.wf() by {
                if i < before.walls.len() {
                    assert(after.walls[i] == before.walls[i]);
                }
            }
            assert forall|i: int| 0 <= i < after.walls.len() implies (
            #[trigger] after.walls[i]).entity < after.next_entity by {
                if i < before.walls.len() {
                    assert(after.walls[i] == before.walls[i]);
                }
            }
        }
        Ok(entity)
    }

    /// Removes the ball with the identity `entity` and says whether there was one. To
    /// remove a ball that is gone already changes nothing.
    pub fn remove_ball(&mut self, entity: BodyId) -> (removed: bool)
        requires
            old(self).wf(),
        ensures
            final(self).wf(),
            removed == has_ball(old(self)@.balls, entity),
            !has_ball(final(self)@.balls, entity),
            final(self)@ == (WorldView {
                balls: remaining(old(self)@.balls, seq![entity]),
                ..old(self)@
            }),
            !removed ==> final(self)@ == old(self)@,
            removed ==> final(self)@.balls.len() + 1 == old(self)@.balls.len(),
    {
        let present = self.get_ball(entity).is_some();
        let mut gone: Vec<BodyId> = Vec::new();
        gone.push(entity);
        assert(gone@ =~= seq![entity]);
        despawn(&mut self.balls, &gone);
        proof {
            lemma_remove_none(old(self)@.balls);
            assert(seq![].push(entity) =~= gone@);
            if present {
                lemma_remove_present(old(self)@.balls, seq![], entity);
            } else {
                lemma_remove_absent(old(self)@.balls, seq![], entity);
            }
            lemma_remaining(old(self)@.balls, gone@);
            assert(gone@[0] == entity);
            assert(gone@.contains(entity));
            let before = old(self)@;
            let after = self@;
            assert forall|i: int| 0 <= i < after.balls.len() implies !has_wall(
                after.walls,
                (#[trigger] after.balls[i]).entity,
            ) && after.balls[i].entity < after.next_entity && after.balls[i].ball.wf() by {
                assert(before.balls.contains(after.balls[i]));
            }
        }
        present
    }

    /// Runs one frame of `dt` microseconds and returns the merges that it made, in the
    /// order of their detection.
    pub fn step(&mut self, dt: u64) -> (merges: Vec<MergeNotification>)
        requires
            old(self).wf(),
        ensures
            final(self).wf(),
            final(self)@ == old(self)@.step(dt),
            merges@ == old(self)@.step_merges(dt),
    {
        self.step_observed(dt).merges
    }

    /// Runs one frame of `dt` microseconds, as [`World::step`] does, and returns with the
    /// merges the collision events that it resolved, for an observer of the frame.
    pub fn step_observed(&mut self, dt: u64) -> (report: FrameReport)
        requires
            old(self).wf(),
        ensures
            final(self).wf(),
            final(self)@ == old(self)@.step(dt),
            report.merges@ == old(self)@.step_merges(dt),
            report.events@ == old(self)@.step_events(dt),
    {
        proof {
            lemma_step_wf(self@, dt);
        }
        balls_update(dt, &mut self.balls);
        let mut events = ball_rect_collision_system(&self.balls, &self.walls);
        let found = ball_ball_collision_system(&self.balls);
        despawn(&mut self.balls, &found.removed_entities);
        let ghost wall_events = events@;
        let mut k: usize = 0;
        while k < found.collision_events.len()
            invariant
                k <= found.collision_events.len(),
                events@ == wall_events + found.collision_events@.take(k as int),
            decreases found.collision_events.len() - k,
        {
            events.push(found.collision_events[k]);
            assert(events@ =~= wall_events + found.collision_events@.take(k as int + 1));
            k += 1;
        }
        assert(found.collision_events@.take(k as int) =~= found.collision_events@);
        balls_collision_resolution(&events, &mut self.balls);
        let spawns = merge_spawn_events(&found.merges);
        let spawned = spawn_items(&self.items, &spawns, self.next_entity, &mut self.balls);
        assert(spawned is Ok);
        self.next_entity = self.next_entity + found.merges.len() as u64;
        FrameReport { merges: found.merges, events }
    }
}

} // verus!
