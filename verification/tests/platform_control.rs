use merge_physics::fixed::SCALE;
use merge_physics::physics::{Ball, BallBody, Vec2, Velocity};
use merge_physics::platform::{
    drop_and_move, init, spawn_controller, spawn_items, ItemResource, ItemsResources, Keys,
    Platform, SpawnItemEvent, SpawnItemTimer, ValidationError, NUM_ITEMS, PLATFORM_SPEED,
    PLATFORM_START_X, PLATFORM_START_Y, SPAWN_INTERVAL,
    SPAWN_OFFSET_X, SPAWN_OFFSET_Y, SPAWN_RANGE_END, SPAWN_RANGE_START,
};
use merge_physics::scene::spawn_scene;
use merge_physics::score::Score;
use merge_physics::physics::{MergeNotification, Rectangle, WallBody};
use merge_physics::world::World;

/// A length, speed or bounciness given in thousandths.
fn milli(value: i32) -> i32 {
    value * (SCALE / 1_000)
}

/// A point given in thousandths of a unit.
fn at(x: i32, y: i32) -> Vec2 {
    Vec2 { x: milli(x), y: milli(y) }
}

/// A point given in sub-units.
fn raw(x: i32, y: i32) -> Vec2 {
    Vec2 { x, y }
}

/// A catalog entry with radius and bounciness given in thousandths.
fn entry(radius: i32, bounciness: i32) -> ItemResource {
    ItemResource { radius: milli(radius), bounciness: milli(bounciness) }
}

/// Shape and material with radius and bounciness given in thousandths.
fn shape(radius: i32, bounciness: i32, tier: u8) -> Ball {
    Ball { radius: milli(radius), bounciness: milli(bounciness), ball_type: tier }
}

/// A platform of the game's speed that holds a ball of the given tier.
fn holding(next_item: u8) -> Platform {
    Platform { speed: milli(100_000), next_item }
}

fn keys(left: bool, right: bool, drop: bool) -> Keys {
    Keys { left, right, drop }
}

#[test]
fn reference_catalog_has_five_tiers_growing_in_size_and_falling_in_bounciness() {
    let items = init();
    assert_eq!(NUM_ITEMS, 5);
    assert_eq!(
        items.resources,
        [
            entry(5_000, 500),
            entry(8_000, 400),
            entry(13_000, 300),
            entry(16_000, 200),
            entry(19_000, 100),
        ]
    );
    assert_eq!(items.validate(), Ok(()));
}

#[test]
fn validate_names_what_is_wrong() {
    let mut items = init();
    items.resources[4].radius = 0;
    assert_eq!(items.validate(), Err(ValidationError::InvalidRadius));
    let mut items = init();
    items.resources[0].bounciness = SCALE + 1;
    assert_eq!(items.validate(), Err(ValidationError::InvalidBounciness));
    let mut items = init();
    items.resources[0].bounciness = SCALE;
    items.resources[1].bounciness = 0;
    assert_eq!(items.validate(), Ok(()));
}

#[test]
fn make_ball_reads_the_tier_from_the_catalog() {
    let items = init();
    assert_eq!(items.make_ball(0), shape(5_000, 500, 0));
    assert_eq!(items.make_ball(4), shape(19_000, 100, 4));
}

#[test]
fn spawn_items_creates_balls_at_rest_with_rising_identities() {
    let items = init();
    let events = vec![
        SpawnItemEvent { item_type: 1, position: at(14_250, 0) },
        SpawnItemEvent { item_type: 0, position: raw(-5, 7) },
    ];
    let mut balls = vec![BallBody {
        entity: 3,
        ball: items.make_ball(2),
        position: at(1, 1),
        velocity: Velocity { velocity: at(9, 9) },
    }];
    assert_eq!(spawn_items(&items, &events, 40, &mut balls), Ok(()));
    assert_eq!(balls.len(), 3);
    assert_eq!(balls[0].entity, 3);
    assert_eq!(
        balls[1],
        BallBody {
            entity: 40,
            ball: shape(8_000, 400, 1),
            position: at(14_250, 0),
            velocity: Velocity { velocity: at(0, 0) },
        }
    );
    assert_eq!(
        balls[2],
        BallBody {
            entity: 41,
            ball: shape(5_000, 500, 0),
            position: raw(-5, 7),
            velocity: Velocity { velocity: at(0, 0) },
        }
    );
    assert_eq!(spawn_items(&items, &Vec::new(), 50, &mut balls), Ok(()));
    assert_eq!(balls.len(), 3);
}

#[test]
fn spawn_items_rejects_a_tier_that_does_not_exist_and_adds_no_ball() {
    let items = init();
    let mut balls = vec![BallBody {
        entity: 3,
        ball: items.make_ball(2),
        position: at(1, 1),
        velocity: Velocity { velocity: at(9, 9) },
    }];
    let before = balls.clone();
    let events = vec![SpawnItemEvent { item_type: 5, position: at(0, 0) }];
    assert_eq!(spawn_items(&items, &events, 40, &mut balls), Err(ValidationError::InvalidTier));
    assert_eq!(balls, before);
    // One bad request spoils the list, wherever it stands.
    let events = vec![
        SpawnItemEvent { item_type: 1, position: at(0, 0) },
        SpawnItemEvent { item_type: 0, position: at(0, 0) },
        SpawnItemEvent { item_type: 255, position: at(0, 0) },
    ];
    assert_eq!(spawn_items(&items, &events, 40, &mut balls), Err(ValidationError::InvalidTier));
    assert_eq!(balls, before);
    assert_eq!(spawn_items(&items, &events, u64::MAX, &mut balls), Err(ValidationError::InvalidTier));
    assert_eq!(balls, before);
}

#[test]
fn spawn_items_fails_when_identities_run_out_and_adds_no_ball() {
    let items = init();
    let mut balls: Vec<BallBody> = Vec::new();
    let events = vec![
        SpawnItemEvent { item_type: 1, position: at(0, 0) },
        SpawnItemEvent { item_type: 0, position: at(0, 0) },
    ];
    assert_eq!(
        spawn_items(&items, &events, u64::MAX - 1, &mut balls),
        Err(ValidationError::OutOfIdentities)
    );
    assert!(balls.is_empty());
    assert_eq!(spawn_items(&items, &events, u64::MAX - 2, &mut balls), Ok(()));
    assert_eq!(balls.len(), 2);
    assert_eq!(balls[1].entity, u64::MAX - 1);
}

#[test]
fn platform_starts_over_the_middle_of_the_field() {
    assert_eq!(Platform::start(), holding(0));
    assert_eq!(Platform::start_position(), at(50_000, 100_000));
    assert_eq!((PLATFORM_SPEED, PLATFORM_START_X, PLATFORM_START_Y), (100 * SCALE, 50 * SCALE, 100 * SCALE));
}

#[test]
fn timer_starts_at_zero() {
    let timer = SpawnItemTimer::default();
    assert_eq!(timer, SpawnItemTimer { elapsed: 0, finished: false });
    assert_eq!(SPAWN_INTERVAL, 1_000_000);
}

#[test]
fn timer_finishes_once_per_period_and_keeps_the_remainder() {
    let mut timer = SpawnItemTimer::default();
    timer.tick(400_000);
    assert_eq!(timer, SpawnItemTimer { elapsed: 400_000, finished: false });
    timer.tick(599_999);
    assert_eq!(timer, SpawnItemTimer { elapsed: 999_999, finished: false });
    timer.tick(1);
    assert_eq!(timer, SpawnItemTimer { elapsed: 0, finished: true });
    timer.tick(0);
    assert_eq!(timer, SpawnItemTimer { elapsed: 0, finished: false });
    timer.tick(1_500_000);
    assert_eq!(timer, SpawnItemTimer { elapsed: 500_000, finished: true });
    timer.tick(800_000);
    assert_eq!(timer, SpawnItemTimer { elapsed: 300_000, finished: true });
    timer.tick(600_000);
    assert_eq!(timer, SpawnItemTimer { elapsed: 900_000, finished: false });
    timer.tick(7_100_000);
    assert_eq!(timer, SpawnItemTimer { elapsed: 0, finished: true });
}

#[test]
fn timer_takes_the_longest_tick() {
    let mut timer = SpawnItemTimer { elapsed: 999_999, finished: false };
    timer.tick(u64::MAX);
    // 999_999 + (2^64 - 1) = 18_446_744_073_710_551_614
    assert_eq!(timer, SpawnItemTimer { elapsed: 551_614, finished: true });
    let mut timer = SpawnItemTimer { elapsed: u64::MAX, finished: false };
    timer.tick(u64::MAX);
    // 2 * (2^64 - 1) = 36_893_488_147_419_103_230
    assert_eq!(timer, SpawnItemTimer { elapsed: 103_230, finished: true });
}

#[test]
fn drop_needs_the_key_and_the_timer() {
    for (held, finished) in [(false, false), (false, true), (true, false)] {
        let mut platform = holding(1);
        let mut position = at(50_000, 100_000);
        let event = drop_and_move(&mut platform, &mut position, &keys(false, false, held), 16_667, finished, 0);
        assert_eq!(event, None);
        assert_eq!(platform, holding(1));
        assert_eq!(position, at(50_000, 100_000));
    }
    let mut platform = holding(1);
    let mut position = at(50_000, 100_000);
    let event = drop_and_move(&mut platform, &mut position, &keys(false, false, true), 16_667, true, 0);
    assert_eq!(event, Some(SpawnItemEvent { item_type: 1, position: at(50_000, 99_000) }));
    assert_eq!(platform, holding(0));
    assert_eq!(position, at(50_000, 100_000));
}

#[test]
fn drop_offset_is_one_unit_down() {
    assert_eq!((SPAWN_OFFSET_X, SPAWN_OFFSET_Y), (0, -SCALE));
    let mut platform = holding(3);
    let mut position = raw(7, i32::MIN + 10);
    let event = drop_and_move(&mut platform, &mut position, &keys(false, false, true), 0, true, 1);
    assert_eq!(event, Some(SpawnItemEvent { item_type: 3, position: raw(7, i32::MIN) }));
}

#[test]
fn platform_moves_at_its_speed() {
    let mut platform = holding(1);
    let mut position = at(50_000, 100_000);
    drop_and_move(&mut platform, &mut position, &keys(false, true, false), 16_667, false, 0);
    assert_eq!(position, raw(51_666_700, 100_000_000));
    drop_and_move(&mut platform, &mut position, &keys(true, false, false), 16_667, false, 0);
    assert_eq!(position, at(50_000, 100_000));
    drop_and_move(&mut platform, &mut position, &keys(true, false, false), 1_000_000, false, 0);
    assert_eq!(position, at(-50_000, 100_000));
}

#[test]
fn right_key_wins_over_the_left_key() {
    let mut platform = holding(1);
    let mut position = at(0, 0);
    drop_and_move(&mut platform, &mut position, &keys(true, true, false), 10_000, false, 0);
    assert_eq!(position, at(1_000, 0));
}

#[test]
fn ball_is_dropped_from_where_the_platform_was() {
    let mut platform = holding(0);
    let mut position = at(50_000, 100_000);
    let event = drop_and_move(&mut platform, &mut position, &keys(false, true, true), 1_000_000, true, 1);
    assert_eq!(event, Some(SpawnItemEvent { item_type: 0, position: at(50_000, 99_000) }));
    assert_eq!(position, at(150_000, 100_000));
    assert_eq!(platform.next_item, 1);
}

#[test]
fn platform_stops_at_the_edge_of_the_plane() {
    let mut platform = Platform { speed: i32::MAX, next_item: 0 };
    let mut position = raw(i32::MAX - 5, 0);
    drop_and_move(&mut platform, &mut position, &keys(false, true, false), u64::MAX, false, 0);
    assert_eq!(position, raw(i32::MAX, 0));
    drop_and_move(&mut platform, &mut position, &keys(true, false, false), u64::MAX, false, 0);
    assert_eq!(position, raw(i32::MIN, 0));
}

#[test]
fn controller_drops_when_the_timer_finishes_and_draws_the_next_tier() {
    assert_eq!((SPAWN_RANGE_START, SPAWN_RANGE_END), (0, 2));
    for _ in 0..200 {
        let mut timer = SpawnItemTimer { elapsed: 990_000, finished: false };
        let mut platform = holding(4);
        let mut position = at(50_000, 100_000);
        let event = spawn_controller(16_667, &keys(false, false, true), &mut timer, &mut platform, &mut position);
        assert_eq!(event, Some(SpawnItemEvent { item_type: 4, position: at(50_000, 99_000) }));
        assert_eq!(timer, SpawnItemTimer { elapsed: 6_667, finished: true });
        assert!(platform.next_item < 2);
        assert_eq!(platform.speed, milli(100_000));
        assert_eq!(position, at(50_000, 100_000));
    }
}

#[test]
fn controller_draws_both_tiers_of_the_range() {
    let mut seen = [false; 2];
    for _ in 0..400 {
        let mut timer = SpawnItemTimer { elapsed: 999_999, finished: false };
        let mut platform = holding(4);
        let mut position = at(0, 0);
        spawn_controller(1, &keys(false, false, true), &mut timer, &mut platform, &mut position);
        seen[platform.next_item as usize] = true;
    }
    assert_eq!(seen, [true, true]);
}

#[test]
fn controller_waits_for_the_timer() {
    let mut timer = SpawnItemTimer::default();
    let mut platform = holding(4);
    let mut position = at(50_000, 100_000);
    let mut drops = 0;
    // Sixty frames a second for two and a half seconds with the drop key held.
    for _ in 0..150 {
        let event = spawn_controller(16_667, &keys(false, true, true), &mut timer, &mut platform, &mut position);
        if event.is_some() {
            drops += 1;
        }
    }
    assert_eq!(drops, 2);
    assert_eq!(position, raw(50_000_000 + 150 * 1_666_700, 100_000_000));
    assert!(platform.next_item < 2);
}

#[test]
fn controller_without_the_drop_key_keeps_the_tier() {
    let mut timer = SpawnItemTimer { elapsed: 990_000, finished: false };
    let mut platform = holding(4);
    let mut position = at(50_000, 100_000);
    let event = spawn_controller(16_667, &keys(true, false, false), &mut timer, &mut platform, &mut position);
    assert_eq!(event, None);
    assert_eq!(timer, SpawnItemTimer { elapsed: 6_667, finished: true });
    assert_eq!(platform.next_item, 4);
    assert_eq!(position, raw(48_333_300, 100_000_000));
}

#[test]
fn scene_is_a_floor_between_two_walls() {
    let mut world = World::new(init()).unwrap();
    world.spawn_ball(0, at(50_000, 90_000), Velocity { velocity: at(0, 0) }).unwrap();
    assert_eq!(spawn_scene(&mut world), Ok(()));
    assert_eq!(
        world.walls(),
        &vec![
            WallBody {
                entity: 1,
                rectangle: Rectangle { width: milli(5_000), height: milli(100_000) },
                position: at(0, 50_000),
            },
            WallBody {
                entity: 2,
                rectangle: Rectangle { width: milli(5_000), height: milli(100_000) },
                position: at(100_000, 50_000),
            },
            WallBody {
                entity: 3,
                rectangle: Rectangle { width: milli(100_000), height: milli(5_000) },
                position: at(50_000, 0),
            },
        ]
    );
    assert_eq!(world.balls().len(), 1);
    assert_eq!(world.spawn_ball(0, at(0, 0), Velocity { velocity: at(0, 0) }), Ok(4));
}

#[test]
fn scene_needs_three_identities() {
    let mut world = World::starting_at(init(), u64::MAX - 2).unwrap();
    assert_eq!(spawn_scene(&mut world), Err(ValidationError::OutOfIdentities));
    assert!(world.walls().is_empty());
    let mut world = World::starting_at(init(), u64::MAX - 3).unwrap();
    assert_eq!(spawn_scene(&mut world), Ok(()));
    assert_eq!(world.walls().len(), 3);
    assert_eq!(world.walls()[2].entity, u64::MAX - 1);
}

#[test]
fn ball_dropped_into_the_scene_comes_to_lie_on_the_floor() {
    let mut world = World::new(init()).unwrap();
    spawn_scene(&mut world).unwrap();
    let id = world.spawn_ball(0, at(50_000, 99_000), Velocity { velocity: at(0, 0) }).unwrap();
    for _ in 0..600 {
        world.step(16_667);
    }
    let ball = world.get_ball(id).unwrap();
    assert_eq!(ball.position.x, milli(50_000));
    // The floor's surface is at 2.5; the ball is within a bounce of its resting height 7.5.
    assert!(ball.position.y >= milli(7_000) && ball.position.y <= milli(9_000));
}

#[test]
fn score_counts_the_merges() {
    let mut score = Score::default();
    assert_eq!(score.score(), 0);
    assert_eq!(score.room(), u32::MAX);
    let merge = MergeNotification { tier_a: 0, tier_b: 0, new_tier: 1, position: at(0, 0) };
    score.record(&vec![merge, merge]);
    assert_eq!(score.score(), 2);
    score.record(&Vec::new());
    assert_eq!(score.score(), 2);
    score.record(&vec![merge]);
    assert_eq!(score.score(), 3);
    assert_eq!(score.room(), u32::MAX - 3);
}
