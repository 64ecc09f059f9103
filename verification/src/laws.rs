//! Laws of reflection and of the narrow phase, proved over the specifications of
//! [`crate::physics`].

use crate::fixed::{
    along, div_trunc, lemma_along_axis, lemma_along_bounds, lemma_along_le_target,
    lemma_sqrt_floor, lemma_sqrt_floor_square, saturate, sqrt_floor, SCALE,
};
use crate::physics::{
    ball_ball_contact, ball_rect_contact, bounce, nearest_point, reflect_component, Ball, BallBody,
    Rectangle, Vec2,
};
use vstd::math::abs;
use vstd::prelude::*;

verus! {

/// Rounding toward zero never lengthens: the quotient times the divisor stays within the
/// dividend, and the next larger magnitude would pass it.
pub proof fn lemma_div_trunc_bounds(a: int, b: int)
    requires
        b > 0,
    ensures
        abs(div_trunc(a, b)) * b <= abs(a),
        abs(a) < (abs(div_trunc(a, b)) + 1) * b,
        a >= 0 ==> div_trunc(a, b) >= 0,
        a <= 0 ==> div_trunc(a, b) <= 0,
{
    let m = abs(a) as int;
    let k = m / b;
    assert(0 <= k && k * b <= m < (k + 1) * b) by (nonlinear_arith)
        requires
            b > 0,
            m >= 0,
            k == m / b,
    ;
    assert(abs(div_trunc(a, b)) == k);
}

/// Mirroring a velocity `(vx, vy)` at the line perpendicular to `(wx, wy)` keeps its
/// length. Stated before the division by the squared length `q` of the normal: the mirrored
/// vector times `q` has the squared length of the velocity times `q^2`.
pub proof fn lemma_reflection_preserves_length(vx: int, vy: int, wx: int, wy: int)
    ensures
        ({
            let q = wx * wx + wy * wy;
            let s = vx * wx + vy * wy;
            let rx = vx * q - 2 * s * wx;
            let ry = vy * q - 2 * s * wy;
            rx * rx + ry * ry == q * q * (vx * vx + vy * vy)
        }),
{
    let q = wx * wx + wy * wy;
    let s = vx * wx + vy * wy;
    lemma_mirror_square(vx, wx, s, q);
    lemma_mirror_square(vy, wy, s, q);
    let sq = s * q;
    let ss = s * s;
    let qq = q * q;
    assert(sq * (vx * wx) + sq * (vy * wy) == ss * q) by (nonlinear_arith)
        requires
            s == vx * wx + vy * wy,
            sq == s * q,
            ss == s * s,
    ;
    assert(ss * (wx * wx) + ss * (wy * wy) == ss * q) by (nonlinear_arith)
        requires
            q == wx * wx + wy * wy,
    ;
    assert((vx * vx) * qq + (vy * vy) * qq == qq * (vx * vx + vy * vy)) by (nonlinear_arith);
}

/// Square of one component of a mirrored vector, before the division by `q`.
proof fn lemma_mirror_square(v: int, w: int, s: int, q: int)
    ensures
        (v * q - 2 * s * w) * (v * q - 2 * s * w) == (v * v) * (q * q) - 4 * ((s * q) * (v * w))
            + 4 * ((s * s) * (w * w)),
{
    let a = v * q;
    let b = s * w;
    assert((a - 2 * b) * (a - 2 * b) == a * a - 4 * (a * b) + 4 * (b * b)) by (nonlinear_arith);
    assert(a * a == (v * v) * (q * q)) by (nonlinear_arith)
        requires
            a == v * q,
    ;
    assert(b * b == (s * s) * (w * w)) by (nonlinear_arith)
        requires
            b == s * w,
    ;
    assert(a * b == (s * q) * (v * w)) by (nonlinear_arith)
        requires
            a == v * q,
            b == s * w,
    ;
    assert(2 * s * w == 2 * b) by (nonlinear_arith)
        requires
            b == s * w,
    ;
}

/// A mirrored velocity, rounded toward zero on each axis, is no longer than the velocity.
pub proof fn lemma_reflect_no_longer(vx: int, vy: int, wx: int, wy: int)
    requires
        wx != 0 || wy != 0,
    ensures
        ({
            let q = wx * wx + wy * wy;
            let s = vx * wx + vy * wy;
            let rx = reflect_component(vx, wx, s, q);
            let ry = reflect_component(vy, wy, s, q);
            rx * rx + ry * ry <= vx * vx + vy * vy
        }),
{
    let q = wx * wx + wy * wy;
    let s = vx * wx + vy * wy;
    assert(q > 0) by (nonlinear_arith)
        requires
            wx != 0 || wy != 0,
            q == wx * wx + wy * wy,
    ;
    let ex = vx * q - 2 * s * wx;
    let ey = vy * q - 2 * s * wy;
    let rx = reflect_component(vx, wx, s, q);
    let ry = reflect_component(vy, wy, s, q);
    lemma_reflection_preserves_length(vx, vy, wx, wy);
    lemma_div_trunc_bounds(ex, q);
    lemma_div_trunc_bounds(ey, q);
    let ax = abs(rx) as int;
    let ay = abs(ry) as int;
    let bx = abs(ex) as int;
    let by = abs(ey) as int;
    assert(rx * rx * (q * q) <= ex * ex) by (nonlinear_arith)
        requires
            0 <= ax * q <= bx,
            ax == rx || ax == -rx,
            bx == ex || bx == -ex,
    ;
    assert(ry * ry * (q * q) <= ey * ey) by (nonlinear_arith)
        requires
            0 <= ay * q <= by,
            ay == ry || ay == -ry,
            by == ey || by == -ey,
    ;
    let n = vx * vx + vy * vy;
    let r = rx * rx + ry * ry;
    assert(r * (q * q) <= q * q * n) by (nonlinear_arith)
        requires
            r == rx * rx + ry * ry,
            rx * rx * (q * q) <= ex * ex,
            ry * ry * (q * q) <= ey * ey,
            ex * ex + ey * ey == q * q * n,
    ;
    if r > n {
        assert(false) by (nonlinear_arith)
            requires
                r >= n + 1,
                q > 0,
                r * (q * q) <= q * q * n,
        ;
    }
}

/// A bounce keeps at most the fraction `bounciness` of the speed: the squared speed after
/// the bounce, times `SCALE^2`, is at most the squared speed before it times the square of
/// the bounciness.
pub proof fn lemma_bounce_speed(body: BallBody, c: Vec2)
    requires
        body.ball.wf(),
        body.position != c,
    ensures
        ({
            let v = body.velocity.velocity;
            let u = bounce(body, c).velocity.velocity;
            let b = body.ball.bounciness;
            SCALE * SCALE * (u.x * u.x + u.y * u.y) <= b * b * (v.x * v.x + v.y * v.y)
        }),
{
    let v = body.velocity.velocity;
    let u = bounce(body, c).velocity.velocity;
    let b = body.ball.bounciness as int;
    let wx = body.position.x - c.x;
    let wy = body.position.y - c.y;
    let q = wx * wx + wy * wy;
    let s = v.x * wx + v.y * wy;
    assert(q > 0) by (nonlinear_arith)
        requires
            wx != 0 || wy != 0,
            q == wx * wx + wy * wy,
    ;
    let rx = reflect_component(v.x as int, wx, s, q);
    let ry = reflect_component(v.y as int, wy, s, q);
    lemma_reflect_no_longer(v.x as int, v.y as int, wx, wy);
    lemma_scaled_component(rx, b, u.x as int);
    lemma_scaled_component(ry, b, u.y as int);
    let n = v.x * v.x + v.y * v.y;
    let k = SCALE as int;
    assert(k * k * (u.x * u.x + u.y * u.y) <= b * b * n) by (nonlinear_arith)
        requires
            k * k * (u.x * u.x) <= b * b * (rx * rx),
            k * k * (u.y * u.y) <= b * b * (ry * ry),
            rx * rx + ry * ry <= n,
            b * b >= 0,
    ;
}

/// One axis of the scaling by the bounciness: a mirrored component `r` scaled by
/// `b / SCALE`, rounded toward zero and saturated, has at most that magnitude.
proof fn lemma_scaled_component(r: int, b: int, u: int)
    requires
        0 <= b <= SCALE,
        u == saturate(div_trunc(r * b, SCALE as int)),
    ensures
        SCALE * SCALE * (u * u) <= b * b * (r * r),
        b * b >= 0,
{
    let k = SCALE as int;
    let t = div_trunc(r * b, k);
    lemma_div_trunc_bounds(r * b, k);
    let au = abs(u) as int;
    let at = abs(t) as int;
    let ar = abs(r) as int;
    assert(au <= at);
    assert(abs(r * b) == ar * b) by (nonlinear_arith)
        requires
            b >= 0,
            ar == r || ar == -r,
            ar >= 0,
    ;
    assert(k * k * (u * u) <= b * b * (r * r) && b * b >= 0) by (nonlinear_arith)
        requires
            0 <= au <= at,
            at * k <= ar * b,
            au == u || au == -u,
            ar == r || ar == -r,
            k > 0,
            b >= 0,
            ar >= 0,
    ;
}

/// The speed after a bounce is the exact one up to rounding. On each axis, where the
/// result is not saturated, the stored component `u` and the exact component
/// `(b / SCALE) * (e / q)` - with `e` the mirrored component before the division by the
/// squared length `q` of the normal - differ by less than `1 + b / SCALE`, and `u` is the
/// one nearer to zero.
pub proof fn lemma_bounce_speed_tolerance(v: int, w: int, s: int, q: int, b: int)
    requires
        q > 0,
        0 <= b <= SCALE,
        i32::MIN <= div_trunc(reflect_component(v, w, s, q) * b, SCALE as int) <= i32::MAX,
    ensures
        ({
            let e = v * q - 2 * s * w;
            let u = saturate(div_trunc(reflect_component(v, w, s, q) * b, SCALE as int));
            &&& abs(u) * SCALE * q <= b * abs(e)
            &&& b * abs(e) < (SCALE * (abs(u) + 1) + b) * q
            &&& e >= 0 ==> u >= 0
            &&& e <= 0 ==> u <= 0
        }),
{
    let k = SCALE as int;
    let e = v * q - 2 * s * w;
    let r = reflect_component(v, w, s, q);
    let u = div_trunc(r * b, k);
    lemma_div_trunc_bounds(e, q);
    lemma_div_trunc_bounds(r * b, k);
    let ae = abs(e) as int;
    let ar = abs(r) as int;
    let au = abs(u) as int;
    assert(abs(r * b) == ar * b) by (nonlinear_arith)
        requires
            b >= 0,
            ar == r || ar == -r,
            ar >= 0,
    ;
    assert(au * k * q <= b * ae) by (nonlinear_arith)
        requires
            au * k <= ar * b,
            ar * q <= ae,
            q > 0,
            b >= 0,
            au >= 0,
            ar >= 0,
    ;
    assert(b * ae < (k * (au + 1) + b) * q) by (nonlinear_arith)
        requires
            ae < (ar + 1) * q,
            ar * b < (au + 1) * k,
            q > 0,
            b >= 0,
            ae >= 0,
            ar >= 0,
    ;
    if e >= 0 {
        assert(r * b >= 0) by (nonlinear_arith)
            requires
                r >= 0,
                b >= 0,
        ;
    }
    if e <= 0 {
        assert(r * b <= 0) by (nonlinear_arith)
            requires
                r <= 0,
                b >= 0,
        ;
    }
}

/// After a bounce the ball's centre is one radius from the contact point, up to rounding:
/// its offset from the contact point is the exact offset rounded toward zero on each axis.
/// So the offset is at most one radius long, the next grid point outward is more than one
/// radius away, and the centre stays on the side of the contact point that it was on.
/// This holds where the plane has room for the ball around the contact point.
pub proof fn lemma_bounce_distance(body: BallBody, c: Vec2)
    requires
        body.ball.radius > 0,
        body.position != c,
        i32::MIN <= c.x - body.ball.radius,
        c.x + body.ball.radius <= i32::MAX,
        i32::MIN <= c.y - body.ball.radius,
        c.y + body.ball.radius <= i32::MAX,
    ensures
        ({
            let radius = body.ball.radius as int;
            let dx = bounce(body, c).position.x - c.x;
            let dy = bounce(body, c).position.y - c.y;
            &&& dx * dx + dy * dy <= radius * radius
            &&& radius * radius < (abs(dx) + 1) * (abs(dx) + 1) + (abs(dy) + 1) * (abs(dy) + 1)
            &&& body.position.x >= c.x ==> dx >= 0
            &&& body.position.x <= c.x ==> dx <= 0
            &&& body.position.y >= c.y ==> dy >= 0
            &&& body.position.y <= c.y ==> dy <= 0
        }),
{
    let radius = body.ball.radius as int;
    let wx = body.position.x - c.x;
    let wy = body.position.y - c.y;
    let q = wx * wx + wy * wy;
    assert(q > 0 && wx * wx <= q && wy * wy <= q) by (nonlinear_arith)
        requires
            wx != 0 || wy != 0,
            q == wx * wx + wy * wy,
    ;
    let ox = along(wx, radius, q);
    let oy = along(wy, radius, q);
    lemma_along_bounds(wx, radius, q);
    lemma_along_bounds(wy, radius, q);
    lemma_along_le_target(wx, radius, q);
    lemma_along_le_target(wy, radius, q);
    assert(bounce(body, c).position.x - c.x == ox);
    assert(bounce(body, c).position.y - c.y == oy);
    lemma_rescaled_length(wx, wy, radius);
    if wx == 0 {
        assert(ox == 0) by (nonlinear_arith)
            requires
                ox * ox * q <= wx * wx * radius * radius,
                wx == 0,
                q > 0,
        ;
    }
    if wy == 0 {
        assert(oy == 0) by (nonlinear_arith)
            requires
                oy * oy * q <= wy * wy * radius * radius,
                wy == 0,
                q > 0,
        ;
    }
}

/// A vector `(wx, wy)` rescaled to the length `|m|` has that length up to rounding: the
/// rescaled vector is at most `|m|` long, and the next grid point outward is more than
/// `|m|` from its foot.
pub proof fn lemma_rescaled_length(wx: int, wy: int, m: int)
    requires
        wx != 0 || wy != 0,
    ensures
        ({
            let q = wx * wx + wy * wy;
            let ox = along(wx, m, q);
            let oy = along(wy, m, q);
            &&& ox * ox + oy * oy <= m * m
            &&& m * m < (abs(ox) + 1) * (abs(ox) + 1) + (abs(oy) + 1) * (abs(oy) + 1)
        }),
{
    let q = wx * wx + wy * wy;
    assert(q > 0) by (nonlinear_arith)
        requires
            wx != 0 || wy != 0,
            q == wx * wx + wy * wy,
    ;
    let ox = along(wx, m, q);
    let oy = along(wy, m, q);
    lemma_along_bounds(wx, m, q);
    lemma_along_bounds(wy, m, q);
    let ax = abs(ox) as int;
    let ay = abs(oy) as int;
    let mm = m * m;
    assert(wx * wx * m * m == (wx * wx) * mm) by (nonlinear_arith)
        requires
            mm == m * m,
    ;
    assert(wy * wy * m * m == (wy * wy) * mm) by (nonlinear_arith)
        requires
            mm == m * m,
    ;
    let inner = ox * ox + oy * oy;
    let outer = (ax + 1) * (ax + 1) + (ay + 1) * (ay + 1);
    assert(inner * q <= mm * q) by (nonlinear_arith)
        requires
            inner == ox * ox + oy * oy,
            ox * ox * q <= (wx * wx) * mm,
            oy * oy * q <= (wy * wy) * mm,
            q == wx * wx + wy * wy,
    ;
    assert(mm * q < outer * q) by (nonlinear_arith)
        requires
            outer == (ax + 1) * (ax + 1) + (ay + 1) * (ay + 1),
            (wx * wx) * mm < (ax + 1) * (ax + 1) * q,
            (wy * wy) * mm < (ay + 1) * (ay + 1) * q,
            q == wx * wx + wy * wy,
    ;
    assert(inner <= mm && mm < outer) by (nonlinear_arith)
        requires
            inner * q <= mm * q,
            mm * q < outer * q,
            q > 0,
    ;
}

/// Where two balls touch, the contact point lies on the line from the second centre
/// toward the first, at the distance `m = radius_2 - delta` from the second centre up to
/// rounding, with `delta` a quarter of the overlap rounded down. The overlap is taken
/// against the distance `d` of the centres rounded down, so `delta` is at least zero and
/// at most a quarter of the sum of the radii.
pub proof fn lemma_contact_offset(ball_1: Ball, pos_1: Vec2, ball_2: Ball, pos_2: Vec2)
    requires
        ball_1.radius > 0,
        ball_2.radius > 0,
        ball_ball_contact(ball_1, pos_1, ball_2, pos_2) is Some,
    ensures
        ({
            let vx = pos_1.x - pos_2.x;
            let vy = pos_1.y - pos_2.y;
            let q = vx * vx + vy * vy;
            let d = sqrt_floor(q);
            let radius_sum = ball_1.radius + ball_2.radius;
            let delta = (radius_sum - d) / 4;
            let m = ball_2.radius - delta;
            let ox = along(vx, m, q);
            let oy = along(vy, m, q);
            &&& ball_ball_contact(ball_1, pos_1, ball_2, pos_2) == Some(
                Vec2::saturated(pos_2.x + ox, pos_2.y + oy),
            )
            &&& d * d <= q < (d + 1) * (d + 1)
            &&& 1 <= d < radius_sum
            &&& 4 * delta <= radius_sum - d < 4 * delta + 4
            &&& 0 <= delta <= radius_sum / 4
            &&& ox * ox + oy * oy <= m * m
            &&& m * m < (abs(ox) + 1) * (abs(ox) + 1) + (abs(oy) + 1) * (abs(oy) + 1)
        }),
{
    let vx = pos_1.x - pos_2.x;
    let vy = pos_1.y - pos_2.y;
    let q = vx * vx + vy * vy;
    let d = sqrt_floor(q);
    let radius_sum = ball_1.radius + ball_2.radius;
    lemma_sqrt_floor(q);
    if d >= radius_sum {
        assert(radius_sum * radius_sum <= d * d) by (nonlinear_arith)
            requires
                0 <= radius_sum <= d,
        ;
    }
    if d < 1 {
        assert((d + 1) * (d + 1) == 1) by (nonlinear_arith)
            requires
                d == 0,
        ;
    }
    assert(vx != 0 || vy != 0) by (nonlinear_arith)
        requires
            q == vx * vx + vy * vy,
            q > 0,
    ;
    lemma_rescaled_length(vx, vy, ball_2.radius - (radius_sum - d) / 4);
}

/// Contact with a wall is exclusive at the boundary: a ball whose centre is one radius or
/// more from the wall's nearest point does not touch the wall, and a ball that is nearer
/// touches it at that point.
pub proof fn lemma_wall_contact(ball: Ball, pos: Vec2, rect: Rectangle, rect_pos: Vec2)
    ensures
        pos.dist2(nearest_point(pos, rect, rect_pos)) >= ball.radius * ball.radius
            ==> ball_rect_contact(ball, pos, rect, rect_pos) is None,
        pos.dist2(nearest_point(pos, rect, rect_pos)) < ball.radius * ball.radius
            ==> ball_rect_contact(ball, pos, rect, rect_pos) == Some(
            nearest_point(pos, rect, rect_pos),
        ),
{
}

/// A ball over the top edge of a wall touches the wall exactly when its centre is less
/// than one radius above the edge, and then at the point of the edge below its centre.
pub proof fn lemma_ball_above_wall(ball: Ball, pos: Vec2, rect: Rectangle, rect_pos: Vec2)
    requires
        rect.wf(),
        ball.radius > 0,
        rect_pos.x - rect.width / 2 <= pos.x <= rect_pos.x + rect.width / 2,
        rect_pos.y + rect.height / 2 <= pos.y,
    ensures
        pos.y - (rect_pos.y + rect.height / 2) >= ball.radius ==> ball_rect_contact(
            ball,
            pos,
            rect,
            rect_pos,
        ) is None,
        pos.y - (rect_pos.y + rect.height / 2) < ball.radius ==> ball_rect_contact(
            ball,
            pos,
            rect,
            rect_pos,
        ) == Some(Vec2 { x: pos.x, y: (rect_pos.y + rect.height / 2) as i32 }),
{
    let top = rect_pos.y + rect.height / 2;
    let gap = pos.y - top;
    let radius = ball.radius as int;
    let nearest = nearest_point(pos, rect, rect_pos);
    assert(nearest == Vec2 { x: pos.x, y: top as i32 });
    let dx = pos.x - nearest.x;
    assert(dx * dx == 0) by (nonlinear_arith)
        requires
            dx == 0,
    ;
    assert(pos.dist2(nearest) == gap * gap);
    if gap >= radius {
        assert(gap * gap >= radius * radius) by (nonlinear_arith)
            requires
                gap >= radius,
                radius > 0,
        ;
    } else {
        assert(gap * gap < radius * radius) by (nonlinear_arith)
            requires
                0 <= gap < radius,
        ;
    }
}

/// Contact of two balls is exclusive at the boundary: balls whose centres are the sum of
/// the radii or more apart do not touch, nor do balls with one centre; all others do.
pub proof fn lemma_ball_contact(ball_1: Ball, pos_1: Vec2, ball_2: Ball, pos_2: Vec2)
    ensures
        ball_ball_contact(ball_1, pos_1, ball_2, pos_2) is Some <==> 0 < pos_1.dist2(pos_2) < (
        ball_1.radius + ball_2.radius) * (ball_1.radius + ball_2.radius),
{
}

/// Two balls side by side, the first to the left, at the distance `d` of their centres:
/// they touch exactly when `d` is less than the sum of the radii, and then at the point
/// that lies `radius_2 - (radius_1 + radius_2 - d) / 4` to the left of the second centre.
pub proof fn lemma_balls_side_by_side(ball_1: Ball, pos_1: Vec2, ball_2: Ball, pos_2: Vec2)
    requires
        ball_1.radius > 0,
        ball_2.radius > 0,
        pos_1.y == pos_2.y,
        pos_1.x < pos_2.x,
    ensures
        pos_2.x - pos_1.x >= ball_1.radius + ball_2.radius ==> ball_ball_contact(
            ball_1,
            pos_1,
            ball_2,
            pos_2,
        ) is None,
        pos_2.x - pos_1.x < ball_1.radius + ball_2.radius ==> ball_ball_contact(
            ball_1,
            pos_1,
            ball_2,
            pos_2,
        ) == Some(
            Vec2::saturated(
                pos_2.x - (ball_2.radius - (ball_1.radius + ball_2.radius - (pos_2.x - pos_1.x))
                    / 4),
                pos_2.y as int,
            ),
        ),
{
    let d = pos_2.x - pos_1.x;
    let reach = ball_1.radius + ball_2.radius;
    let vx = pos_1.x - pos_2.x;
    let q = vx * vx + 0 * 0;
    assert(q == d * d && q > 0) by (nonlinear_arith)
        requires
            q == vx * vx + 0 * 0,
            vx == -d,
            d > 0,
    ;
    if d >= reach {
        assert(d * d >= reach * reach) by (nonlinear_arith)
            requires
                d >= reach,
                reach > 0,
        ;
    } else {
        assert(d * d < reach * reach) by (nonlinear_arith)
            requires
                0 < d < reach,
        ;
        lemma_sqrt_floor_square(d);
        let m = ball_2.radius - (reach - d) / 4;
        assert(vx * vx == q);
        lemma_along_axis(vx, m);
        lemma_along_bounds(0, m, q);
        assert(along(0, m, q) == 0) by (nonlinear_arith)
            requires
                along(0, m, q) * along(0, m, q) * q <= 0 * 0 * m * m,
                q > 0,
        ;
    }
}

} // verus!
