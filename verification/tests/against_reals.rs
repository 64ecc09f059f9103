//! The fixed-point results held against the same formulas in floating point.

use merge_physics::fixed::SCALE;
use merge_physics::physics::{
    ball_ball_collision, ball_rect_collision, bounce_ball, move_ball, Ball, BallBody, Rectangle,
    Vec2, Velocity,
};

/// A small deterministic generator: the tests need spread, not randomness.
struct Sequence(u64);

impl Sequence {
    fn next(&mut self) -> u64 {
        self.0 = self.0.wrapping_mul(6364136223846793005).wrapping_add(1442695040888963407);
        self.0 >> 33
    }

    fn between(&mut self, low: i32, high: i32) -> i32 {
        low + (self.next() % (high - low) as u64) as i32
    }
}

/// A stored value in units.
fn units(value: i32) -> f64 {
    value as f64 / SCALE as f64
}

/// A value given in thousandths, as stored.
fn milli(value: i32) -> i32 {
    value * (SCALE / 1_000)
}

/// The most that the rounding of one stored value can cost, doubled for the arithmetic
/// of the comparison itself.
const STEP: f64 = 2e-6;

#[test]
fn movement_follows_the_real_formula() {
    let mut seq = Sequence(1);
    for _ in 0..2_000 {
        let body = BallBody {
            entity: 0,
            ball: Ball { radius: milli(5_000), bounciness: milli(500), ball_type: 0 },
            position: Vec2 { x: seq.between(-200_000_000, 200_000_000), y: seq.between(-200_000_000, 200_000_000) },
            velocity: Velocity {
                velocity: Vec2 { x: seq.between(-150_000_000, 150_000_000), y: seq.between(-150_000_000, 150_000_000) },
            },
        };
        let dt = seq.between(0, 50_000) as u64;
        let moved = move_ball(&body, dt);
        let seconds = dt as f64 / 1e6;
        let vy = (units(body.velocity.velocity.y) - 200.0 * seconds).max(-100.0);
        let x = units(body.position.x) + units(body.velocity.velocity.x) * seconds;
        let y = units(body.position.y) + vy * seconds;
        assert_eq!(moved.velocity.velocity.x, body.velocity.velocity.x);
        assert!((units(moved.velocity.velocity.y) - vy).abs() <= STEP);
        assert!((units(moved.position.x) - x).abs() <= STEP);
        assert!((units(moved.position.y) - y).abs() <= 2.0 * STEP);
    }
}

#[test]
fn wall_contact_follows_the_real_formula() {
    let mut seq = Sequence(2);
    let mut hits = 0;
    for _ in 0..5_000 {
        let ball = Ball { radius: seq.between(1, 20_000_000), bounciness: milli(500), ball_type: 0 };
        let pos = Vec2 { x: seq.between(-60_000_000, 60_000_000), y: seq.between(-60_000_000, 60_000_000) };
        // Even extents, so that half of each is exact.
        let rect = Rectangle {
            width: 2 * seq.between(0, 40_000_000),
            height: 2 * seq.between(0, 40_000_000),
        };
        let rect_pos = Vec2 { x: seq.between(-20_000_000, 20_000_000), y: seq.between(-20_000_000, 20_000_000) };
        let px = units(pos.x)
            .max(units(rect_pos.x) - units(rect.width) / 2.0)
            .min(units(rect_pos.x) + units(rect.width) / 2.0);
        let py = units(pos.y)
            .max(units(rect_pos.y) - units(rect.height) / 2.0)
            .min(units(rect_pos.y) + units(rect.height) / 2.0);
        let d2 = (units(pos.x) - px).powi(2) + (units(pos.y) - py).powi(2);
        let r2 = units(ball.radius).powi(2);
        match ball_rect_collision(&ball, &pos, &rect, &rect_pos) {
            Some(p) => {
                hits += 1;
                assert!(d2 < r2 + 1e-9);
                assert!((units(p.x) - px).abs() < 1e-9 && (units(p.y) - py).abs() < 1e-9);
            }
            None => assert!(d2 > r2 - 1e-9),
        }
    }
    assert!(hits > 500);
}

#[test]
fn ball_contact_follows_the_real_formula() {
    let mut seq = Sequence(3);
    let mut hits = 0;
    for _ in 0..5_000 {
        let ball_1 = Ball { radius: seq.between(1_000_000, 20_000_000), bounciness: milli(500), ball_type: 0 };
        let ball_2 = Ball { radius: seq.between(1_000_000, 20_000_000), bounciness: milli(500), ball_type: 1 };
        let pos_1 = Vec2 { x: seq.between(-20_000_000, 20_000_000), y: seq.between(-20_000_000, 20_000_000) };
        let pos_2 = Vec2 { x: seq.between(-20_000_000, 20_000_000), y: seq.between(-20_000_000, 20_000_000) };
        let (vx, vy) = (units(pos_1.x) - units(pos_2.x), units(pos_1.y) - units(pos_2.y));
        let d = (vx * vx + vy * vy).sqrt();
        let r = units(ball_1.radius) + units(ball_2.radius);
        match ball_ball_collision(&ball_1, &pos_1, &ball_2, &pos_2) {
            Some(p) => {
                hits += 1;
                assert!(d < r + 1e-9 && d > 0.0);
                let delta = (r - d) / 4.0;
                let reach = units(ball_2.radius) - delta;
                let cx = units(pos_2.x) + vx / d * reach;
                let cy = units(pos_2.y) + vy / d * reach;
                // Rounding of the distance, of a quarter of the overlap, and of each axis.
                assert!((units(p.x) - cx).abs() <= 2.0 * STEP, "{} {}", units(p.x), cx);
                assert!((units(p.y) - cy).abs() <= 2.0 * STEP, "{} {}", units(p.y), cy);
            }
            None => assert!(d > r - 1e-9 || d == 0.0),
        }
    }
    assert!(hits > 500);
}

#[test]
fn bounce_follows_the_real_formula() {
    let mut seq = Sequence(4);
    for _ in 0..5_000 {
        let body = BallBody {
            entity: 0,
            ball: Ball {
                radius: seq.between(1_000_000, 20_000_000),
                bounciness: seq.between(0, 1_000_001),
                ball_type: 0,
            },
            position: Vec2 { x: seq.between(-20_000_000, 20_000_000), y: seq.between(-20_000_000, 20_000_000) },
            velocity: Velocity {
                velocity: Vec2 { x: seq.between(-150_000_000, 150_000_000), y: seq.between(-150_000_000, 150_000_000) },
            },
        };
        let contact = Vec2 {
            x: body.position.x + seq.between(-20_000_000, 20_000_000),
            y: body.position.y + seq.between(-20_000_000, 20_000_000),
        };
        if contact == body.position {
            continue;
        }
        let bounced = bounce_ball(&body, &contact);

        let (wx, wy) = (
            units(body.position.x) - units(contact.x),
            units(body.position.y) - units(contact.y),
        );
        let len = (wx * wx + wy * wy).sqrt();
        let (nx, ny) = (wx / len, wy / len);
        let (vx, vy) = (units(body.velocity.velocity.x), units(body.velocity.velocity.y));
        let dot = vx * nx + vy * ny;
        let b = units(body.ball.bounciness);
        let (ux, uy) = ((vx - 2.0 * dot * nx) * b, (vy - 2.0 * dot * ny) * b);
        let (px, py) = (
            units(contact.x) + nx * units(body.ball.radius),
            units(contact.y) + ny * units(body.ball.radius),
        );
        // Two roundings on each axis: of the mirrored speed, and of its scaling.
        assert!((units(bounced.velocity.velocity.x) - ux).abs() <= 2.0 * STEP);
        assert!((units(bounced.velocity.velocity.y) - uy).abs() <= 2.0 * STEP);
        assert!((units(bounced.position.x) - px).abs() <= STEP);
        assert!((units(bounced.position.y) - py).abs() <= STEP);

        // The speed after is the bounciness times the speed before, up to rounding.
        let before = (vx * vx + vy * vy).sqrt();
        let after = (units(bounced.velocity.velocity.x).powi(2)
            + units(bounced.velocity.velocity.y).powi(2))
        .sqrt();
        assert!(after <= b * before + 1e-9);
        assert!(after >= b * before - 3.0 * STEP);
        // The centre is one radius from the contact point, up to rounding.
        let gap = ((units(bounced.position.x) - units(contact.x)).powi(2)
            + (units(bounced.position.y) - units(contact.y)).powi(2))
        .sqrt();
        assert!(gap <= units(body.ball.radius) + 1e-9);
        assert!(gap >= units(body.ball.radius) - 2.0 * STEP);
    }
}
