use breakout::audio::{SawtoothWaveform, SquareWaveform, Waveform};
use breakout::color::{row_color, Color};
use breakout::ecs::Name;
use breakout::game::{Action, Capture, Game, Held, Outcome, CAPTURE_FRAMES};
use breakout::sim::{ball_touches, bounce_against_quad, integrate_ball, move_paddle, reflected, update};
use breakout::vector::{Vec2, UNIT};
use breakout::world::{Ball, Quad, World, BALL_RADIUS};

fn v(x: f64, y: f64) -> Vec2 {
    Vec2::new((x * UNIT as f64).round() as i64, (y * UNIT as f64).round() as i64)
}

fn brick(x: f64, y: f64, w: f64, h: f64) -> Quad {
    Quad { pos: v(x, y), vel: Vec2::zero(), dims: v(w, h), color: Color::Red, breakable: true }
}

fn ball(x: f64, y: f64, vx: i64, vy: i64) -> Ball {
    Ball { pos: v(x, y), vel: Vec2::new(vx, vy), radius: UNIT }
}

fn paddle() -> Quad {
    Quad { pos: v(0., 9.), vel: Vec2::zero(), dims: v(1., 0.5), color: Color::White, breakable: false }
}

fn world_of(balls: Vec<Ball>, bricks: Vec<Quad>) -> World {
    World { balls, bricks, paddle: paddle(), spawned: 0 }
}

const VIEW: (f64, f64) = (10., 10.);

#[test]
fn ball_falling_onto_brick_bounces_and_breaks_it() {
    let mut world = world_of(vec![ball(3., 3.5, 0, -100000)], vec![brick(2., 1., 2., 1.5)]);
    let mut next = World::new();
    update(&mut world, &mut next, 5, 0, v(VIEW.0, VIEW.1));
    assert_eq!(world.bricks.len(), 0);
    assert_eq!(world.balls.len(), 1);
    assert_eq!(world.balls[0].pos, v(3., 3.));
    assert_eq!(world.balls[0].vel, Vec2::new(0, 100000));
    assert!(next.balls.is_empty() && next.bricks.is_empty());
}

#[test]
fn unbreakable_quad_bounces_but_stays() {
    let mut q = brick(2., 1., 2., 1.5);
    q.breakable = false;
    let mut world = world_of(vec![ball(3., 3.5, 0, -100000)], vec![q]);
    let mut next = World::new();
    update(&mut world, &mut next, 5, 0, v(VIEW.0, VIEW.1));
    assert_eq!(world.bricks.len(), 1);
    assert_eq!(world.balls[0].vel, Vec2::new(0, 100000));
}

#[test]
fn resting_world_keeps_its_state() {
    let balls = vec![ball(5., 5., 0, 0), ball(7., 7., 0, 0), ball(12., 5., 0, 0)];
    let bricks = vec![brick(0.5, 0.5, 2., 1.), brick(6., 1., 2., 1.)];
    let mut world = world_of(balls.clone(), bricks.clone());
    let mut next = World::new();
    let mut count = world.balls.len();
    for _ in 0..10 {
        update(&mut world, &mut next, 5, 0, v(VIEW.0, VIEW.1));
        assert!(world.balls.len() <= count);
        count = world.balls.len();
        assert_eq!(world.bricks, bricks);
        assert_eq!(world.paddle, paddle());
        assert_eq!(world.balls, vec![balls[0], balls[1]]);
    }
}

#[test]
fn still_ball_touching_a_brick_breaks_it_once() {
    let balls = vec![ball(3., 3., 0, 0), ball(7., 7., 0, 0)];
    let touched = brick(2., 1., 2., 1.5);
    let clear = brick(6., 1., 2., 1.);
    let mut world = world_of(balls.clone(), vec![touched, clear]);
    let mut next = World::new();
    for _ in 0..5 {
        update(&mut world, &mut next, 5, 0, v(VIEW.0, VIEW.1));
        assert_eq!(world.bricks, vec![clear]);
        assert_eq!(world.balls, balls);
        assert_eq!(world.paddle, paddle());
    }
}

#[test]
fn spare_buffer_is_cleared_after_a_tick() {
    let mut world = world_of(vec![ball(5., 5., 0, 0)], vec![brick(0.5, 0.5, 2., 1.)]);
    world.spawned = 3;
    let mut next = world_of(vec![ball(1., 1., 0, 0)], vec![brick(6., 1., 2., 1.)]);
    next.spawned = 9;
    update(&mut world, &mut next, 5, 0, v(VIEW.0, VIEW.1));
    assert!(next.balls.is_empty() && next.bricks.is_empty());
    assert_eq!(next.paddle, Quad::empty());
    assert_eq!(next.spawned, 0);
    assert_eq!(world.spawned, 3);
    assert_eq!(world.balls.len(), 1);
    assert_eq!(world.bricks.len(), 1);
}

#[test]
fn balls_leaving_the_playfield_are_dropped() {
    let mut world = world_of(vec![ball(0.1, 5., -100000, 0), ball(5., 5., 100000, 0)], vec![]);
    let mut next = World::new();
    update(&mut world, &mut next, 5, 0, v(VIEW.0, VIEW.1));
    assert_eq!(world.balls.len(), 1);
    assert_eq!(world.balls[0].pos, v(5.5, 5.));
}

#[test]
fn paddle_is_clamped_to_the_playfield() {
    let p = Quad { pos: v(8.5, 1.), vel: Vec2::zero(), dims: v(1., 0.5), color: Color::White, breakable: false };
    let moved = move_paddle(&p, 5, 400000, v(VIEW.0, VIEW.1).x);
    assert_eq!(moved.pos, v(9., 1.));
    assert_eq!(moved.vel, Vec2::new(400000, 0));
    let moved = move_paddle(&p, 5, -400000, v(VIEW.0, VIEW.1).x);
    assert_eq!(moved.pos, v(6.5, 1.));
}

#[test]
fn integrate_moves_by_velocity() {
    let b = integrate_ball(&ball(1., 2., 1000, -2000), 5);
    assert_eq!(b.pos, Vec2::new(1005000, 1990000));
    assert_eq!(b.vel, Vec2::new(1000, -2000));
}

#[test]
fn touch_is_strict() {
    let q = brick(0., 0., 1., 1.);
    assert!(ball_touches(&ball(1.5, 0.5, 0, 0), &q));
    assert!(!ball_touches(&ball(2., 0.5, 0, 0), &q));
    assert!(ball_touches(&ball(0.5, 0.5, 0, 0), &q));
    // Corner at distance sqrt(0.5) < 1.
    assert!(ball_touches(&ball(1.5, 1.5, 0, 0), &q));
    assert!(!ball_touches(&ball(1.8, 1.8, 0, 0), &q));
}

#[test]
fn bounce_normals() {
    let q = brick(0., 0., 1., 1.);
    // From the right: x is the nearer axis.
    let mut b = ball(1.5, 0.5, -3, 2);
    assert!(bounce_against_quad(&mut b, &q));
    assert_eq!(b.vel, Vec2::new(3, 2));
    // From below.
    let mut b = ball(0.5, -0.5, 3, 2);
    assert!(bounce_against_quad(&mut b, &q));
    assert_eq!(b.vel, Vec2::new(3, -2));
    // Exactly diagonal off the corner: a tie, reflected across (-1, -1).
    let mut b = ball(1.5, 1.5, -3, -2);
    assert!(bounce_against_quad(&mut b, &q));
    assert_eq!(b.vel, Vec2::new(2, 3));
    // No touch: nothing changes.
    let mut b = ball(3., 3., -3, -2);
    assert!(!bounce_against_quad(&mut b, &q));
    assert_eq!(b.vel, Vec2::new(-3, -2));
}

#[test]
fn reflection_values() {
    assert_eq!(reflected(Vec2::new(3, -4), Vec2::new(0, 1)), Vec2::new(3, 4));
    assert_eq!(reflected(Vec2::new(3, -4), Vec2::new(-1, 0)), Vec2::new(-3, -4));
    assert_eq!(reflected(Vec2::new(3, -4), Vec2::new(-1, -1)), Vec2::new(4, -3));
    assert_eq!(reflected(Vec2::new(3, -4), Vec2::new(1, -1)), Vec2::new(-4, 3));
    assert_eq!(reflected(Vec2::new(3, -4), Vec2::new(0, 0)), Vec2::new(3, -4));
}

#[test]
fn create_ball_and_reset() {
    let mut w = World::new();
    w.create_ball(v(1., 2.));
    w.create_ball(v(3., 4.));
    assert_eq!(w.balls.len(), 2);
    assert_eq!(w.spawned, 2);
    assert_eq!(w.balls[1].pos, v(3., 4.));
    assert_eq!(w.balls[1].radius, BALL_RADIUS);
    assert!(w.balls[1].vel.y > 0);
    w.reset();
    assert!(w.balls.is_empty() && w.bricks.is_empty());
    assert_eq!(w.paddle, Quad::empty());
    assert_eq!(w.spawned, 0);
}

#[test]
fn spawning_then_clearing_leaves_no_balls() {
    let mut g = Game::new(500, 750);
    for _ in 0..3 {
        assert_eq!(g.handle(Action::SpawnBall), Outcome::Continue);
    }
    assert_eq!(g.world.balls.len(), 4);
    assert_eq!(g.handle(Action::ClearBalls), Outcome::Cleared(4));
    g.tick(Held { left: false, right: false, spawn: false });
    assert_eq!(g.world.balls.len(), 0);
}

#[test]
fn new_game_layout() {
    let g = Game::new(500, 750);
    assert_eq!(g.view, v(85., 127.5));
    assert_eq!(g.world.bricks.len(), 14 * 55);
    assert_eq!(g.world.bricks[0].pos, v(1., 125.5));
    assert_eq!(g.world.bricks[0].color, Color::Red);
    assert_eq!(g.world.bricks[13].pos, v(79., 125.5));
    assert_eq!(g.world.bricks[14 * 2].color, Color::Orange);
    assert_eq!(g.world.bricks[14 * 54 + 3].pos, v(19., 17.5));
    assert_eq!(g.world.bricks[14 * 54].color, Color::OhnoPink);
    assert_eq!(g.world.paddle.pos, v(40., 6.375));
    assert_eq!(g.world.paddle.dims, v(20., 1.));
    assert_eq!(g.launch, v(49.5, 9.375));
    assert_eq!(g.world.balls.len(), 1);
    assert_eq!(g.world.balls[0].pos, g.launch);
    assert!(!g.paused);
    assert_eq!(g.capture, Capture::Idle);
}

#[test]
fn row_colors() {
    assert_eq!(row_color(0), Color::Red);
    assert_eq!(row_color(3), Color::Orange);
    assert_eq!(row_color(4), Color::Green);
    assert_eq!(row_color(7), Color::Yellow);
    assert_eq!(row_color(8), Color::OhnoPink);
}

#[test]
fn pause_stops_the_simulation() {
    let mut g = Game::new(500, 750);
    assert_eq!(g.handle(Action::TogglePause), Outcome::Continue);
    assert!(g.paused);
    let before = g.world.balls.clone();
    g.tick(Held { left: true, right: false, spawn: false });
    assert_eq!(g.world.balls, before);
    g.handle(Action::TogglePause);
    g.tick(Held { left: true, right: false, spawn: false });
    assert_eq!(g.world.paddle.pos.x, v(38., 0.).x);
    assert_eq!(g.handle(Action::Quit), Outcome::Quit);
}

#[test]
fn spawn_on_paddle_uses_its_position() {
    let mut g = Game::new(500, 750);
    g.tick(Held { left: false, right: true, spawn: false });
    g.spawn_on_paddle();
    let b = g.world.balls.last().unwrap();
    assert_eq!(b.pos, v(51.5, 9.375));
}

#[test]
fn capture_counts_down_then_pauses() {
    let mut g = Game::new(500, 750);
    assert!(!g.frame_done());
    assert_eq!(g.handle(Action::ToggleCapture), Outcome::StartCapture);
    assert_eq!(g.capture, Capture::Recording(CAPTURE_FRAMES));
    assert_eq!(g.handle(Action::ToggleCapture), Outcome::Continue);
    for _ in 1..CAPTURE_FRAMES {
        assert!(!g.frame_done());
    }
    assert!(!g.paused);
    assert!(g.frame_done());
    assert!(g.paused);
    assert_eq!(g.capture, Capture::Idle);
}

#[test]
fn draw_list_order() {
    let g = Game::new(500, 750);
    let d = g.draw_list();
    assert_eq!(d.len(), 1 + 14 * 55 + 1);
    assert_eq!(d[0].pos, g.world.balls[0].pos);
    assert_eq!(d[0].dims, Vec2::new(UNIT, UNIT));
    assert_eq!(d[1].pos, g.world.bricks[0].pos);
    assert_eq!(d[1].color, Color::Red);
    assert_eq!(d[d.len() - 1].pos, g.world.paddle.pos);
    assert_eq!(d[d.len() - 1].color, Color::White);
}

#[test]
fn sawtooth_samples() {
    let mut w = SawtoothWaveform::new(8, 2);
    let mut out = [0u16; 6];
    w.next_samples(&mut out);
    // Four samples per wave: the counter grows by 0xffff / 4 = 16383.
    assert_eq!(out, [0, 16383, 32766, 49149, 65532, 16379]);
    assert_eq!(w.t, 6 * 16383);
}

#[test]
fn square_samples() {
    let mut w = SquareWaveform::new(8, 2);
    let mut out = [7u16; 6];
    w.next_samples(&mut out);
    assert_eq!(out, [0, 0, 32767, 32767, 0, 0]);
    assert_eq!(w.t, 6);
}

#[test]
fn name_text() {
    let n = Name("Paddle".to_string());
    assert_eq!(n.to_string(), "Paddle");
}
