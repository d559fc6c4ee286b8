use vstd::prelude::*;

use crate::math::{quad_box, Aabb};
use crate::vector::{abs, in_limit, sgn, Vec2, COORD_LIMIT};
use crate::world::{Ball, Quad, World, WorldView};

verus! {

/// `v` clamped to `[lo, hi]`.
pub open spec fn clamp(v: int, lo: int, hi: int) -> int {
    if v < lo {
        lo
    } else if v > hi {
        hi
    } else {
        v
    }
}

/// The circle of `b` overlaps the box of `q`: the point of the box closest to
/// the ball's center lies strictly closer than the radius.
pub open spec fn touches(b: Ball, q: Quad) -> bool {
    let bx = quad_box(q.pos, q.dims);
    let dx = clamp(b.pos.x as int, bx.min.x as int, bx.max.x as int) - b.pos.x;
    let dy = clamp(b.pos.y as int, bx.min.y as int, bx.max.y as int) - b.pos.y;
    dx * dx + dy * dy < b.radius * b.radius
}

/// How far the center `p` lies beyond the slab `[lo, hi]`, signed by side;
/// `radius` when it lies within the slab.
pub open spec fn axis_delta(p: int, lo: int, hi: int, radius: int) -> int {
    if p <= lo {
        p - lo
    } else if p >= hi {
        p - hi
    } else {
        radius
    }
}

/// The bounce normal of `b` against the box `bx`: along the axis on which the
/// center lies nearer the box, pointing from the box toward the ball; on a tie,
/// the diagonal `(-1, -1)` (as a direction).
pub open spec fn bounce_normal(b: Ball, bx: Aabb) -> Vec2 {
    let dx = axis_delta(b.pos.x as int, bx.min.x as int, bx.max.x as int, b.radius as int);
    let dy = axis_delta(b.pos.y as int, bx.min.y as int, bx.max.y as int, b.radius as int);
    if abs(dx) < abs(dy) {
        Vec2 { x: sgn(dx) as i64, y: 0 }
    } else if abs(dy) < abs(dx) {
        Vec2 { x: 0, y: sgn(dy) as i64 }
    } else {
        Vec2 { x: -1i64, y: -1i64 }
    }
}

/// `v` reflected across the direction `n`: `v - 2 (v.n) n / |n|^2`; a zero
/// `n` leaves `v` as it is.
pub open spec fn reflect(v: Vec2, n: Vec2) -> Vec2 {
    let nn = n.x * n.x + n.y * n.y;
    let dot = v.x * n.x + v.y * n.y;
    if nn == 0 {
        v
    } else {
        Vec2 { x: (v.x - (2 * dot * n.x) / nn) as i64, y: (v.y - (2 * dot * n.y) / nn) as i64 }
    }
}

/// `b` after meeting `q`: reflected off its bounce normal if it touches `q`.
pub open spec fn bounce_off(b: Ball, q: Quad) -> Ball {
    if touches(b, q) {
        Ball { pos: b.pos, vel: reflect(b.vel, bounce_normal(b, quad_box(q.pos, q.dims))), radius: b.radius }
    } else {
        b
    }
}

/// `b` after meeting each of `qs` in order.
pub open spec fn bounce_all(b: Ball, qs: Seq<Quad>) -> Ball
    decreases qs.len(),
{
    if qs.len() == 0 {
        b
    } else {
        bounce_off(bounce_all(b, qs.drop_last()), qs.last())
    }
}

/// Each component of `n` is -1, 0 or 1.
pub open spec fn is_sign_vector(n: Vec2) -> bool {
    -1 <= n.x <= 1 && -1 <= n.y <= 1
}

/// Reflects `v` across the direction `n`, whose components are -1, 0 or 1.
pub fn reflected(v: Vec2, n: Vec2) -> (r: Vec2)
    requires
        v.in_range(),
        is_sign_vector(n),
    ensures
        r == reflect(v, n),
        r.in_range(),
{
    let ghost dot = v.x * n.x + v.y * n.y;
    let ghost nn = n.x * n.x + n.y * n.y;
    let r = if n.x == 0 && n.y == 0 {
        v
    } else if n.x == 0 {
        assert(nn == 1 && 2 * dot * n.x == 0 && 2 * dot * n.y == 2 * v.y) by (nonlinear_arith)
            requires
                n.x == 0,
                n.y == 1 || n.y == -1,
                dot == v.x * n.x + v.y * n.y,
                nn == n.x * n.x + n.y * n.y,
        ;
        Vec2 { x: v.x, y: -v.y }
    } else if n.y == 0 {
        assert(nn == 1 && 2 * dot * n.y == 0 && 2 * dot * n.x == 2 * v.x) by (nonlinear_arith)
            requires
                n.y == 0,
                n.x == 1 || n.x == -1,
                dot == v.x * n.x + v.y * n.y,
                nn == n.x * n.x + n.y * n.y,
        ;
        Vec2 { x: -v.x, y: v.y }
    } else if n.x == n.y {
        assert(nn == 2 && 2 * dot * n.x == 2 * (v.x + v.y) && 2 * dot * n.y == 2 * (v.x + v.y)) by (nonlinear_arith)
            requires
                n.x == n.y,
                n.x == 1 || n.x == -1,
                dot == v.x * n.x + v.y * n.y,
                nn == n.x * n.x + n.y * n.y,
        ;
        assert((2 * (v.x + v.y)) / 2 == v.x + v.y);
        Vec2 { x: -v.y, y: -v.x }
    } else {
        assert(nn == 2 && 2 * dot * n.x == 2 * (v.x - v.y) && 2 * dot * n.y == 2 * (v.y - v.x)) by (nonlinear_arith)
            requires
                n.x == -n.y,
                n.x == 1 || n.x == -1,
                dot == v.x * n.x + v.y * n.y,
                nn == n.x * n.x + n.y * n.y,
        ;
        assert((2 * (v.x - v.y)) / 2 == v.x - v.y);
        assert((2 * (v.y - v.x)) / 2 == v.y - v.x);
        Vec2 { x: v.y, y: v.x }
    };
    assert(r == reflect(v, n));
    r
}

/// A distance smaller than the radius has a smaller square.
proof fn lemma_square_small(d: int, r: int)
    requires
        0 <= abs(d) < r,
    ensures
        d * d < r * r,
        0 <= d * d,
{
    assert(d * d < r * r) by (nonlinear_arith)
        requires
            0 <= (if d < 0 { -d } else { d }) < r,
    ;
    assert(0 <= d * d) by (nonlinear_arith);
}

/// A distance at least the radius on one axis puts the point outside the circle.
proof fn lemma_square_large(d: int, e: int, r: int)
    requires
        0 < r <= abs(d),
    ensures
        d * d + e * e >= r * r,
{
    assert(d * d + e * e >= r * r) by (nonlinear_arith)
        requires
            0 < r <= (if d < 0 { -d } else { d }),
    ;
}

fn clamp_to(v: i64, lo: i64, hi: i64) -> (r: i64)
    ensures
        r == clamp(v as int, lo as int, hi as int),
{
    if v < lo {
        lo
    } else if v > hi {
        hi
    } else {
        v
    }
}

/// Whether the circle of `ball` overlaps the box of `quad`.
pub fn ball_touches(ball: &Ball, quad: &Quad) -> (r: bool)
    requires
        0 < ball.radius <= COORD_LIMIT,
        quad.wf(),
    ensures
        r == touches(*ball, *quad),
{
    let bx = Aabb::new_from_quad(quad.pos, quad.dims);
    let dx = (clamp_to(ball.pos.x, bx.min.x, bx.max.x) as i128) - (ball.pos.x as i128);
    let dy = (clamp_to(ball.pos.y, bx.min.y, bx.max.y) as i128) - (ball.pos.y as i128);
    let r = ball.radius as i128;
    if dx <= -r || dx >= r {
        proof {
            lemma_square_large(dx as int, dy as int, r as int);
        }
        return false;
    }
    if dy <= -r || dy >= r {
        proof {
            lemma_square_large(dy as int, dx as int, r as int);
        }
        return false;
    }
    proof {
        lemma_square_small(dx as int, r as int);
        lemma_square_small(dy as int, r as int);
        assert(r * r <= COORD_LIMIT * COORD_LIMIT) by (nonlinear_arith)
            requires
                0 < r <= COORD_LIMIT,
        ;
    }
    dx * dx + dy * dy < r * r
}

fn delta_of(p: i64, lo: i64, hi: i64, radius: i64) -> (r: i128)
    ensures
        r == axis_delta(p as int, lo as int, hi as int, radius as int),
{
    if p <= lo {
        (p as i128) - (lo as i128)
    } else if p >= hi {
        (p as i128) - (hi as i128)
    } else {
        radius as i128
    }
}

fn sign_of(v: i128) -> (r: i64)
    ensures
        r == sgn(v as int),
{
    if v < 0 {
        -1
    } else if v > 0 {
        1
    } else {
        0
    }
}

/// Bounces `ball` off `brick` if the two touch: its velocity is reflected
/// across the bounce normal. Returns whether they touched.
pub fn bounce_against_quad(ball: &mut Ball, brick: &Quad) -> (r: bool)
    requires
        0 < old(ball).radius <= COORD_LIMIT,
        old(ball).vel.in_range(),
        brick.wf(),
    ensures
        r == touches(*old(ball), *brick),
        *final(ball) == bounce_off(*old(ball), *brick),
        final(ball).vel.in_range(),
{
    if !ball_touches(ball, brick) {
        return false;
    }
    let bx = Aabb::new_from_quad(brick.pos, brick.dims);
    let dx = delta_of(ball.pos.x, bx.min.x, bx.max.x, ball.radius);
    let dy = delta_of(ball.pos.y, bx.min.y, bx.max.y, ball.radius);
    let adx = if dx < 0 { -dx } else { dx };
    let ady = if dy < 0 { -dy } else { dy };
    let normal = if adx < ady {
        Vec2 { x: sign_of(dx), y: 0 }
    } else if ady < adx {
        Vec2 { x: 0, y: sign_of(dy) }
    } else {
        Vec2 { x: -1, y: -1 }
    };
    ball.vel = reflected(ball.vel, normal);
    true
}

/// `b` moved along its velocity for `dt` milliseconds.
pub open spec fn integrate(b: Ball, dt: int) -> Ball {
    Ball {
        pos: Vec2 { x: (b.pos.x + dt * b.vel.x) as i64, y: (b.pos.y + dt * b.vel.y) as i64 },
        vel: b.vel,
        radius: b.radius,
    }
}

/// The paddle after `dt` milliseconds at horizontal velocity `vx`, kept within
/// `[0, width - paddle width]`; it never moves vertically.
pub open spec fn moved_paddle(p: Quad, dt: int, vx: int, width: int) -> Quad {
    Quad {
        pos: Vec2 { x: clamp(p.pos.x + dt * vx, 0, width - p.dims.x) as i64, y: p.pos.y },
        vel: Vec2 { x: vx as i64, y: 0 },
        dims: p.dims,
        color: p.color,
        breakable: p.breakable,
    }
}

/// The center of `b` lies strictly inside the playfield `[0, view.x] x [0, view.y]`.
pub open spec fn in_view(b: Ball, view: Vec2) -> bool {
    0 < b.pos.x < view.x && 0 < b.pos.y < view.y
}

/// A breakable quad breaks when any of `balls` touches it.
pub open spec fn broken(q: Quad, balls: Seq<Ball>) -> bool {
    q.breakable && exists|k: int| 0 <= k < balls.len() && touches(#[trigger] balls[k], q)
}

pub open spec fn integrated(dt: int) -> spec_fn(Ball) -> Ball {
    |b: Ball| integrate(b, dt)
}

pub open spec fn bounced_by(bricks: Seq<Quad>, paddle: Quad) -> spec_fn(Ball) -> Ball {
    |b: Ball| bounce_off(bounce_all(b, bricks), paddle)
}

pub open spec fn visible(view: Vec2) -> spec_fn(Ball) -> bool {
    |b: Ball| in_view(b, view)
}

pub open spec fn survives(balls: Seq<Ball>) -> spec_fn(Quad) -> bool {
    |q: Quad| !broken(q, balls)
}

/// One tick of `dt` milliseconds with the paddle driven at `paddle_vel`:
/// balls and paddle move; each moved ball bounces off every brick it touches,
/// in brick order, then off the paddle; every breakable brick that a moved
/// ball touches is removed; balls whose centers left the playfield are dropped.
pub open spec fn step(w: WorldView, dt: int, paddle_vel: int, view: Vec2) -> WorldView {
    let moved = w.balls.map_values(integrated(dt));
    let paddle = moved_paddle(w.paddle, dt, paddle_vel, view.x as int);
    WorldView {
        balls: moved.map_values(bounced_by(w.bricks, paddle)).filter(visible(view)),
        bricks: w.bricks.filter(survives(moved)),
        paddle,
        spawned: w.spawned,
    }
}

/// The playfield accepts a world: the view is positive and in range, and the
/// paddle fits across it.
pub open spec fn playfield_ok(w: WorldView, paddle_vel: int, view: Vec2) -> bool {
    &&& view.in_range()
    &&& view.x > 0
    &&& view.y > 0
    &&& w.paddle.dims.x <= view.x
    &&& in_limit(paddle_vel)
}

proof fn lemma_travel_bounded(dt: int, v: int)
    requires
        0 <= dt <= 0xffff,
        in_limit(v),
    ensures
        -0x100000000000000 <= dt * v <= 0x100000000000000,
{
    assert(-0x100000000000000 <= dt * v <= 0x100000000000000) by (nonlinear_arith)
        requires
            0 <= dt <= 0xffff,
            -0x10000000000 <= v <= 0x10000000000,
    ;
}

/// `ball` moved along its velocity for `dt` milliseconds.
pub fn integrate_ball(ball: &Ball, dt: u16) -> (r: Ball)
    requires
        ball.wf(),
    ensures
        r == integrate(*ball, dt as int),
{
    proof {
        lemma_travel_bounded(dt as int, ball.vel.x as int);
        lemma_travel_bounded(dt as int, ball.vel.y as int);
    }
    let pos = Vec2 { x: ball.pos.x + (dt as i64) * ball.vel.x, y: ball.pos.y + (dt as i64) * ball.vel.y };
    Ball { pos, vel: ball.vel, radius: ball.radius }
}

/// The paddle moved for `dt` milliseconds at horizontal velocity `vx` and
/// kept within the playfield's width.
pub fn move_paddle(paddle: &Quad, dt: u16, vx: i64, width: i64) -> (r: Quad)
    requires
        paddle.wf(),
        in_limit(vx as int),
        in_limit(width as int),
        paddle.dims.x <= width,
    ensures
        r == moved_paddle(*paddle, dt as int, vx as int, width as int),
        r.wf(),
{
    proof {
        lemma_travel_bounded(dt as int, vx as int);
    }
    let x = clamp_to(paddle.pos.x + (dt as i64) * vx, 0, width - paddle.dims.x);
    Quad {
        pos: Vec2 { x, y: paddle.pos.y },
        vel: Vec2 { x: vx, y: 0 },
        dims: paddle.dims,
        color: paddle.color,
        breakable: paddle.breakable,
    }
}

/// Whether any of `balls` touches `quad`.
fn any_touches(balls: &Vec<Ball>, quad: &Quad) -> (r: bool)
    requires
        forall|k: int| 0 <= k < balls@.len() ==> 0 < (#[trigger] balls@[k]).radius <= COORD_LIMIT,
        quad.wf(),
    ensures
        r == exists|k: int| 0 <= k < balls@.len() && touches(#[trigger] balls@[k], *quad),
{
    let mut i: usize = 0;
    while i < balls.len()
        invariant
            i <= balls@.len(),
            forall|k: int| 0 <= k < balls@.len() ==> 0 < (#[trigger] balls@[k]).radius <= COORD_LIMIT,
            quad.wf(),
            forall|k: int| 0 <= k < i ==> !touches(#[trigger] balls@[k], *quad),
        decreases balls@.len() - i,
    {
        if ball_touches(&balls[i], quad) {
            return true;
        }
        i += 1;
    }
    false
}

/// Advances `world` by one tick (see `step`). The next state is built in
/// the spare buffer `next` from the frozen current one, the two are swapped,
/// and the stale buffer is cleared for reuse; no other storage is allocated.
pub fn update(world: &mut World, next: &mut World, dt: u16, paddle_vel: i64, view: Vec2)
    requires
        old(world)@.wf(),
        playfield_ok(old(world)@, paddle_vel as int, view),
    ensures
        final(world)@ == step(old(world)@, dt as int, paddle_vel as int, view),
        final(world)@.wf(),
        final(next)@.is_cleared(),
{
    next.reset();
    let ghost w = world@;
    let paddle = move_paddle(&world.paddle, dt, paddle_vel, view.x);

    // Move every ball, into the spare buffer.
    let mut i: usize = 0;
    while i < world.balls.len()
        invariant
            world@ == w,
            w.wf(),
            i <= w.balls.len(),
            next.balls@.len() == i,
            next.bricks@.len() == 0,
            forall|k: int| 0 <= k < i ==> #[trigger] next.balls@[k] == integrate(w.balls[k], dt as int),
        decreases w.balls.len() - i,
    {
        let b = integrate_ball(&world.balls[i], dt);
        next.balls.push(b);
        i += 1;
    }
    let ghost ms = w.balls.map_values(integrated(dt as int));
    assert(next.balls@ =~= ms);

    // Keep the bricks that no moved ball touches, and the unbreakable ones.
    assert(w.bricks.take(0) =~= Seq::<Quad>::empty());
    reveal(Seq::filter);
    let mut j: usize = 0;
    while j < world.bricks.len()
        invariant
            world@ == w,
            w.wf(),
            next.balls@ == ms,
            ms.len() == w.balls.len(),
            forall|k: int| 0 <= k < ms.len() ==> #[trigger] ms[k] == integrate(w.balls[k], dt as int),
            j <= w.bricks.len(),
            next.bricks@ == w.bricks.take(j as int).filter(survives(ms)),
            forall|k: int| 0 <= k < next.bricks@.len() ==> (#[trigger] next.bricks@[k]).wf(),
        decreases w.bricks.len() - j,
    {
        let q = world.bricks[j];
        assert forall|k: int| 0 <= k < next.balls@.len() implies 0 < (#[trigger] next.balls@[k]).radius
            <= COORD_LIMIT by {
            assert(w.balls[k].wf());
        }
        let hit = q.breakable && any_touches(&next.balls, &q);
        if !hit {
            next.bricks.push(q);
        }
        assert(w.bricks.take(j + 1).drop_last() =~= w.bricks.take(j as int));
        assert(w.bricks.take(j + 1).last() == q);
        assert(survives(ms)(q) == !hit);
        reveal(Seq::filter);
        j += 1;
    }
    assert(w.bricks.take(w.bricks.len() as int) =~= w.bricks);

    // Bounce every moved ball, and keep, in place, those still in the playfield.
    let ghost bounced = ms.map_values(bounced_by(w.bricks, paddle));
    assert(bounced.take(0) =~= Seq::<Ball>::empty());
    assert(next.balls@.take(0) =~= Seq::<Ball>::empty());
    reveal(Seq::filter);
    let n = next.balls.len();
    let mut kept: usize = 0;
    let mut i: usize = 0;
    while i < n
        invariant
            world@ == w,
            w.wf(),
            n == ms.len(),
            ms.len() == w.balls.len(),
            forall|k: int| 0 <= k < ms.len() ==> #[trigger] ms[k] == integrate(w.balls[k], dt as int),
            bounced == ms.map_values(bounced_by(w.bricks, paddle)),
            paddle.wf(),
            view.in_range(),
            kept <= i <= n,
            next.balls@.len() == n,
            forall|k: int| i <= k < n ==> #[trigger] next.balls@[k] == ms[k],
            next.balls@.take(kept as int) == bounced.take(i as int).filter(visible(view)),
            forall|k: int| 0 <= k < kept ==> (#[trigger] next.balls@[k]).wf(),
            next.bricks@ == w.bricks.filter(survives(ms)),
            forall|k: int| 0 <= k < next.bricks@.len() ==> (#[trigger] next.bricks@[k]).wf(),
        decreases n - i,
    {
        let mut b = next.balls[i];
        assert(b == ms[i as int]);
        assert(w.balls[i as int].wf());
        let mut j: usize = 0;
        while j < world.bricks.len()
            invariant
                world@ == w,
                w.wf(),
                j <= w.bricks.len(),
                0 <= i < ms.len(),
                b == bounce_all(ms[i as int], w.bricks.take(j as int)),
                b.pos == ms[i as int].pos,
                b.radius == ms[i as int].radius,
                0 < b.radius <= COORD_LIMIT,
                b.vel.in_range(),
            decreases w.bricks.len() - j,
        {
            assert(w.bricks.take(j + 1).drop_last() =~= w.bricks.take(j as int));
            assert(w.bricks[j as int].wf());
            bounce_against_quad(&mut b, &world.bricks[j]);
            j += 1;
        }
        assert(w.bricks.take(w.bricks.len() as int) =~= w.bricks);
        bounce_against_quad(&mut b, &paddle);
        assert(b == bounced[i as int]);
        let ghost before = next.balls@;
        if 0 < b.pos.x && b.pos.x < view.x && 0 < b.pos.y && b.pos.y < view.y {
            next.balls.set(kept, b);
            assert(next.balls@.take(kept + 1) =~= before.take(kept as int).push(b));
            kept += 1;
        }
        assert(bounced.take(i + 1).drop_last() =~= bounced.take(i as int));
        assert(bounced.take(i + 1).last() == b);
        reveal(Seq::filter);
        i += 1;
    }
    assert(bounced.take(bounced.len() as int) =~= bounced);
    next.balls.truncate(kept);
    assert(next.balls@ =~= bounced.filter(visible(view)));
    next.paddle = paddle;
    next.spawned = world.spawned;
    std::mem::swap(world, next);
    next.reset();
}

/// A tick never adds a ball or a brick: both only ever leave the world.
pub proof fn lemma_step_never_adds(w: WorldView, dt: int, paddle_vel: int, view: Vec2)
    ensures
        step(w, dt, paddle_vel, view).balls.len() <= w.balls.len(),
        step(w, dt, paddle_vel, view).bricks.len() <= w.bricks.len(),
{
    let moved = w.balls.map_values(integrated(dt));
    let paddle = moved_paddle(w.paddle, dt, paddle_vel, view.x as int);
    moved.map_values(bounced_by(w.bricks, paddle)).lemma_filter_len(visible(view));
    w.bricks.lemma_filter_len(survives(moved));
}

/// A ball that moves straight down onto a breakable brick, ending the tick
/// above the brick's top face and over its width, bounces straight up with
/// the same speed, and the brick is gone (with no paddle in its way, and
/// still inside the playfield).
pub proof fn lemma_ball_bounces_off_brick_below(w: WorldView, dt: int, paddle_vel: int, view: Vec2)
    requires
        w.balls.len() == 1,
        w.bricks.len() == 1,
        w.wf(),
        w.balls[0].vel.x == 0,
        w.balls[0].vel.y < 0,
        w.bricks[0].breakable,
        touches(integrate(w.balls[0], dt), w.bricks[0]),
        quad_box(w.bricks[0].pos, w.bricks[0].dims).min.x < integrate(w.balls[0], dt).pos.x < quad_box(
            w.bricks[0].pos,
            w.bricks[0].dims,
        ).max.x,
        integrate(w.balls[0], dt).pos.y > quad_box(w.bricks[0].pos, w.bricks[0].dims).max.y,
        !touches(integrate(w.balls[0], dt), moved_paddle(w.paddle, dt, paddle_vel, view.x as int)),
        in_view(integrate(w.balls[0], dt), view),
    ensures
        step(w, dt, paddle_vel, view).bricks.len() == 0,
        step(w, dt, paddle_vel, view).balls.len() == 1,
        step(w, dt, paddle_vel, view).balls[0].vel == (Vec2 { x: 0, y: (-w.balls[0].vel.y) as i64 }),
        step(w, dt, paddle_vel, view).balls[0].pos == integrate(w.balls[0], dt).pos,
{
    reveal(Seq::filter);
    let b = integrate(w.balls[0], dt);
    let q = w.bricks[0];
    let bx = quad_box(q.pos, q.dims);
    let moved = w.balls.map_values(integrated(dt));
    let paddle = moved_paddle(w.paddle, dt, paddle_vel, view.x as int);
    assert(moved[0] == b);
    // The center lies over the brick and less than a radius above it.
    assert(w.bricks[0].wf() && w.balls[0].wf());
    assert(bx.min.x <= bx.max.x && bx.min.y <= bx.max.y);
    let dy = b.pos.y - bx.max.y;
    let cx = clamp(b.pos.x as int, bx.min.x as int, bx.max.x as int) - b.pos.x;
    let cy = clamp(b.pos.y as int, bx.min.y as int, bx.max.y as int) - b.pos.y;
    assert(cx == 0);
    assert(cy == -dy);
    assert(cx * cx + cy * cy < b.radius * b.radius);
    assert(dy < b.radius) by (nonlinear_arith)
        requires
            dy > 0,
            b.radius > 0,
            cx == 0,
            cy == -dy,
            cx * cx + cy * cy < b.radius * b.radius,
    ;
    assert(axis_delta(b.pos.x as int, bx.min.x as int, bx.max.x as int, b.radius as int) == b.radius);
    assert(axis_delta(b.pos.y as int, bx.min.y as int, bx.max.y as int, b.radius as int) == dy);
    assert(bounce_normal(b, bx) == Vec2 { x: 0, y: 1 });
    let up = Ball { pos: b.pos, vel: Vec2 { x: 0, y: (-w.balls[0].vel.y) as i64 }, radius: b.radius };
    let n = Vec2 { x: 0, y: 1 };
    let vy = b.vel.y as int;
    assert(b.vel.x == 0);
    let (nx, ny, vx) = (n.x as int, n.y as int, b.vel.x as int);
    assert(nx * nx + ny * ny == 1 && vx * nx + vy * ny == vy && 2 * vy * nx == 0 && 2 * vy * ny == 2 * vy)
        by (nonlinear_arith)
        requires
            nx == 0,
            ny == 1,
            vx == 0,
    ;
    assert(reflect(b.vel, n) == up.vel);
    assert(w.bricks.drop_last() =~= Seq::<Quad>::empty());
    assert(bounce_all(b, w.bricks.drop_last()) == b);
    assert(bounce_all(b, w.bricks) == up);
    assert(bounced_by(w.bricks, paddle)(b) == up);
    let bounced = moved.map_values(bounced_by(w.bricks, paddle));
    assert(bounced.drop_last() =~= Seq::<Ball>::empty());
    assert(broken(q, moved));
    assert(w.bricks.drop_last().filter(survives(moved)).len() == 0);
    assert(bounced.drop_last().filter(visible(view)).len() == 0);
}

/// A sequence whose every element passes `pred` filters to itself.
proof fn lemma_filter_all<A>(s: Seq<A>, pred: spec_fn(A) -> bool)
    requires
        forall|i: int| 0 <= i < s.len() ==> pred(#[trigger] s[i]),
    ensures
        s.filter(pred) == s,
    decreases s.len(),
{
    reveal(Seq::filter);
    if s.len() > 0 {
        lemma_filter_all(s.drop_last(), pred);
        assert(s.drop_last().push(s.last()) =~= s);
    }
}

/// What holds of every element of a sequence holds of every element of a
/// filtered copy of it.
proof fn lemma_filter_keeps<A>(s: Seq<A>, pred: spec_fn(A) -> bool, inv: spec_fn(A) -> bool)
    requires
        forall|i: int| 0 <= i < s.len() ==> inv(#[trigger] s[i]),
    ensures
        forall|i: int| 0 <= i < s.filter(pred).len() ==> inv(#[trigger] s.filter(pred)[i]),
    decreases s.len(),
{
    reveal(Seq::filter);
    if s.len() > 0 {
        let rest = s.drop_last();
        assert forall|i: int| 0 <= i < rest.len() implies inv(#[trigger] rest[i]) by {
            assert(rest[i] == s[i]);
        }
        lemma_filter_keeps(rest, pred, inv);
        let sub = rest.filter(pred);
        assert forall|i: int| 0 <= i < s.filter(pred).len() implies inv(#[trigger] s.filter(pred)[i]) by {
            if i < sub.len() {
                assert(s.filter(pred)[i] == sub[i]);
            } else {
                assert(s.filter(pred)[i] == s.last());
            }
        }
    }
}

/// `n` ticks from `w` with the paddle left at rest.
pub open spec fn run(w: WorldView, n: nat, dt: int, view: Vec2) -> WorldView
    decreases n,
{
    if n == 0 {
        w
    } else {
        step(run(w, (n - 1) as nat, dt, view), dt, 0, view)
    }
}

/// Nothing in `w` moves: every ball is still, and the paddle is still and
/// lies within the playfield's width. (Bricks never move.)
pub open spec fn world_at_rest(w: WorldView, view: Vec2) -> bool {
    &&& forall|i: int| 0 <= i < w.balls.len() ==> (#[trigger] w.balls[i]).vel == Vec2 { x: 0, y: 0 }
    &&& w.paddle.vel == Vec2 { x: 0, y: 0 }
    &&& 0 <= w.paddle.pos.x <= view.x - w.paddle.dims.x
}

/// No ball of `w` touches any brick.
pub open spec fn untouched(w: WorldView) -> bool {
    forall|i: int, j: int| 0 <= i < w.balls.len() && 0 <= j < w.bricks.len() ==> !touches(#[trigger] w.balls[i], #[trigger] w.bricks[j])
}

pub open spec fn is_still(b: Ball) -> bool {
    b.vel == Vec2 { x: 0, y: 0 }
}

pub open spec fn still() -> spec_fn(Ball) -> bool {
    |b: Ball| is_still(b)
}

pub open spec fn clear_of(q: Quad) -> spec_fn(Ball) -> bool {
    |b: Ball| !touches(b, q)
}

/// A zero velocity reflects to zero.
proof fn lemma_reflect_still(n: Vec2)
    ensures
        reflect(Vec2 { x: 0, y: 0 }, n) == (Vec2 { x: 0, y: 0 }),
{
    let v = Vec2 { x: 0, y: 0 };
    let (vx, vy, nx, ny) = (v.x as int, v.y as int, n.x as int, n.y as int);
    let dot = vx * nx + vy * ny;
    assert(dot == 0 && 2 * dot * nx == 0 && 2 * dot * ny == 0) by (nonlinear_arith)
        requires
            vx == 0,
            vy == 0,
            dot == vx * nx + vy * ny,
    ;
    let nn = nx * nx + ny * ny;
    if nn != 0 {
        assert(0int / nn == 0);
    }
}

/// A still ball stays as it is, whatever it meets.
proof fn lemma_still_ball_unmoved(b: Ball, qs: Seq<Quad>)
    requires
        is_still(b),
    ensures
        bounce_all(b, qs) == b,
    decreases qs.len(),
{
    if qs.len() > 0 {
        lemma_still_ball_unmoved(b, qs.drop_last());
        let q = qs.last();
        if touches(b, q) {
            lemma_reflect_still(bounce_normal(b, quad_box(q.pos, q.dims)));
        }
    }
}

/// One tick of a world at rest drops the balls outside the playfield and the
/// breakable bricks that a ball touches, and leaves a world at rest.
proof fn lemma_step_at_rest(w: WorldView, dt: int, view: Vec2)
    requires
        world_at_rest(w, view),
    ensures
        step(w, dt, 0, view) == (WorldView {
            balls: w.balls.filter(visible(view)),
            bricks: w.bricks.filter(survives(w.balls)),
            ..w
        }),
        world_at_rest(step(w, dt, 0, view), view),
{
    let moved = w.balls.map_values(integrated(dt));
    assert forall|i: int| 0 <= i < w.balls.len() implies #[trigger] moved[i] == w.balls[i] by {
        assert(is_still(w.balls[i]));
        assert(dt * 0 == 0);
    }
    assert(moved =~= w.balls);
    let paddle = moved_paddle(w.paddle, dt, 0, view.x as int);
    assert(dt * 0 == 0);
    assert(paddle == w.paddle);
    let bounced = moved.map_values(bounced_by(w.bricks, paddle));
    assert forall|i: int| 0 <= i < w.balls.len() implies #[trigger] bounced[i] == w.balls[i] by {
        let b = w.balls[i];
        assert(is_still(b));
        assert(moved[i] == b);
        lemma_still_ball_unmoved(b, w.bricks);
        lemma_still_ball_unmoved(b, seq![paddle]);
        assert(seq![paddle].drop_last() =~= Seq::<Quad>::empty());
        assert(bounce_all(b, seq![paddle].drop_last()) == b);
        assert(bounce_off(b, paddle) == b);
    }
    assert(bounced =~= w.balls);
    let next = step(w, dt, 0, view);
    assert forall|i: int| 0 <= i < w.balls.len() implies #[trigger] still()(w.balls[i]) by {}
    lemma_filter_keeps(w.balls, visible(view), still());
    assert forall|i: int| 0 <= i < next.balls.len() implies (#[trigger] next.balls[i]).vel == Vec2 { x: 0, y: 0 } by {
        assert(still()(w.balls.filter(visible(view))[i]));
    }
}

/// A world in which nothing moves, ticked `n` times with the paddle at rest,
/// keeps its paddle; after the first tick it holds just the balls that lay
/// inside the playfield, each as it was, and just the bricks that no ball
/// touched or that cannot break; ticks never add a ball. When no ball touches
/// a brick, every brick stays.
pub proof fn lemma_rest_is_stable(w: WorldView, n: nat, dt: int, view: Vec2)
    requires
        world_at_rest(w, view),
    ensures
        run(w, n, dt, view).paddle == w.paddle,
        run(w, n, dt, view).spawned == w.spawned,
        n > 0 ==> run(w, n, dt, view).balls == w.balls.filter(visible(view)),
        n > 0 ==> run(w, n, dt, view).bricks == w.bricks.filter(survives(w.balls)),
        untouched(w) ==> run(w, n, dt, view).bricks == w.bricks,
        run(w, n + 1, dt, view).balls.len() <= run(w, n, dt, view).balls.len(),
        world_at_rest(run(w, n, dt, view), view),
    decreases n,
{
    if untouched(w) {
        assert forall|j: int| 0 <= j < w.bricks.len() implies #[trigger] survives(w.balls)(w.bricks[j]) by {
            if broken(w.bricks[j], w.balls) {
                let k = choose|k: int| 0 <= k < w.balls.len() && touches(#[trigger] w.balls[k], w.bricks[j]);
                assert(!touches(w.balls[k], w.bricks[j]));
            }
        }
        lemma_filter_all(w.bricks, survives(w.balls));
    }
    if n > 0 {
        lemma_rest_is_stable(w, (n - 1) as nat, dt, view);
        let prev = run(w, (n - 1) as nat, dt, view);
        lemma_step_at_rest(prev, dt, view);
        if n > 1 {
            // Filtering again keeps every ball, and every brick left is clear
            // of the balls that remain.
            assert forall|i: int| 0 <= i < prev.balls.len() implies #[trigger] visible(view)(prev.balls[i]) by {
                w.balls.lemma_filter_pred(visible(view), i);
            }
            lemma_filter_all(prev.balls, visible(view));
            assert forall|j: int| 0 <= j < prev.bricks.len() implies #[trigger] survives(prev.balls)(prev.bricks[j]) by {
                let q = prev.bricks[j];
                w.bricks.lemma_filter_pred(survives(w.balls), j);
                if q.breakable {
                    assert forall|i: int| 0 <= i < w.balls.len() implies #[trigger] clear_of(q)(w.balls[i]) by {
                        if touches(w.balls[i], q) {
                            assert(broken(q, w.balls));
                        }
                    }
                    lemma_filter_keeps(w.balls, visible(view), clear_of(q));
                    if broken(q, prev.balls) {
                        let k = choose|k: int| 0 <= k < prev.balls.len() && touches(#[trigger] prev.balls[k], q);
                        assert(clear_of(q)(prev.balls[k]));
                    }
                }
            }
            lemma_filter_all(prev.bricks, survives(prev.balls));
        }
    }
    let cur = run(w, n, dt, view);
    lemma_step_at_rest(cur, dt, view);
    cur.balls.lemma_filter_len(visible(view));
}

} // verus!
