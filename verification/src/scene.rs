//! The playing field: a floor and two side walls.

use crate::physics::{Rectangle, Vec2, WallBody};
use crate::platform::ValidationError;
use crate::world::{World, WorldView};
use vstd::prelude::*;

verus! {

/// Length of the floor and height of the side walls.
pub const WALL_LENGTH: i32 = 100_000_000;

/// Thickness of each wall.
pub const WALL_THICKNESS: i32 = 5_000_000;

/// The walls of the playing field, identities counting up from `first`: the left wall,
/// the right wall, the floor. The field spans `0..WALL_LENGTH` on both axes, measured
/// between the walls' centre lines.
pub open spec fn scene_walls(first: int) -> Seq<WallBody> {
    seq![
        WallBody {
            entity: first as u64,
            rectangle: Rectangle { width: WALL_THICKNESS, height: WALL_LENGTH },
            position: Vec2 { x: 0, y: 50_000_000 },
        },
        WallBody {
            entity: (first + 1) as u64,
            rectangle: Rectangle { width: WALL_THICKNESS, height: WALL_LENGTH },
            position: Vec2 { x: 100_000_000, y: 50_000_000 },
        },
        WallBody {
            entity: (first + 2) as u64,
            rectangle: Rectangle { width: WALL_LENGTH, height: WALL_THICKNESS },
            position: Vec2 { x: 50_000_000, y: 0 },
        },
    ]
}

/// Adds the walls of the playing field to the world. Where the world has not three
/// identities left, none is added.
pub fn spawn_scene(world: &mut World) -> (added: Result<(), ValidationError>)
    requires
        old(world).wf(),
    ensures
        final(world).wf(),
        added is Ok <==> old(world)@.next_entity + old(world)@.balls.len() + 3 <= u64::MAX,
        added is Err ==> added == Err::<(), ValidationError>(ValidationError::OutOfIdentities)
            && final(world)@ == old(world)@,
        added is Ok ==> final(world)@ == (WorldView {
            walls: old(world)@.walls + scene_walls(old(world)@.next_entity as int),
            next_entity: (old(world)@.next_entity + 3) as u64,
            ..old(world)@
        }),
{
    if world.identities_left() < 3 {
        return Err(ValidationError::OutOfIdentities);
    }
    let left = world.add_wall(Vec2 { x: 0, y: 50_000_000 }, WALL_THICKNESS, WALL_LENGTH);
    let right = world.add_wall(Vec2 { x: 100_000_000, y: 50_000_000 }, WALL_THICKNESS, WALL_LENGTH);
    let floor = world.add_wall(Vec2 { x: 50_000_000, y: 0 }, WALL_LENGTH, WALL_THICKNESS);
    assert(left is Ok && right is Ok && floor is Ok);
    assert(world@.walls =~= old(world)@.walls + scene_walls(old(world)@.next_entity as int));
    Ok(())
}

} // verus!
