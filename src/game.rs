use vstd::prelude::*;

use crate::color::{row_color, spec_row_color, Color};
use crate::sim::{step, update};
use crate::vector::{Vec2, COORD_LIMIT, UNIT};
use crate::world::{launched_from, Ball, Quad, World, WorldView};

verus! {

/// Width of a brick, and of the paddle's unit: five world units.
pub const BRICK_WIDTH: i64 = 5000000;

/// Height of a brick and of the paddle: one world unit.
pub const BRICK_HEIGHT: i64 = 1000000;

/// Bricks in each row.
pub const COLUMNS: u64 = 14;

/// Rows of bricks.
pub const ROWS: u64 = 55;

/// Width of the playfield: a one-unit gap before each column and after the last.
pub const VIEW_WIDTH: i64 = 85000000;

/// Length of a tick, in milliseconds.
pub const TICK_MS: u16 = 5;

/// Paddle speed while a move control is held: 400 world units per second.
pub const PADDLE_SPEED: i64 = 400000;

/// Frames recorded by one GPU capture before it stops.
pub const CAPTURE_FRAMES: u32 = 3;

/// A player's intent, as produced by the input mapping.
#[derive(Clone, Copy, Debug, PartialEq, Eq, Structural)]
pub enum Action {
    /// Spawn a ball at the launch point above the paddle's starting place.
    SpawnBall,
    /// Remove every ball.
    ClearBalls,
    /// Stop or resume the simulation.
    TogglePause,
    /// Leave the game.
    Quit,
    /// Start recording a GPU capture.
    ToggleCapture,
}

/// The controls that act for as long as they are held.
#[derive(Clone, Copy, Debug, PartialEq, Eq, Structural)]
pub struct Held {
    pub left: bool,
    pub right: bool,
    /// Spawn a ball on the paddle every frame.
    pub spawn: bool,
}

/// What the frame loop must do after an action.
#[derive(Clone, Copy, Debug, PartialEq, Eq, Structural)]
pub enum Outcome {
    Continue,
    Quit,
    /// This many balls were removed.
    Cleared(usize),
    /// Begin a GPU capture.
    StartCapture,
}

/// The GPU capture: idle, or recording with this many frames left.
#[derive(Clone, Copy, Debug, PartialEq, Eq, Structural)]
pub enum Capture {
    Idle,
    Recording(u32),
}

/// One entry of the draw list.
#[derive(Clone, Copy, Debug, PartialEq, Eq, Structural)]
pub struct DrawQuad {
    pub pos: Vec2,
    pub dims: Vec2,
    pub color: Color,
}

/// The whole game: the current world and its spare buffer, the playfield,
/// where spawned balls start, and the pause and capture states.
pub struct Game {
    pub world: World,
    pub next: World,
    pub view: Vec2,
    pub launch: Vec2,
    pub paused: bool,
    pub capture: Capture,
}

/// Height of the playfield for a window of the given size: the width scaled by
/// the window's aspect ratio.
pub open spec fn view_height(width: int, height: int) -> int {
    VIEW_WIDTH * height / width
}

/// The brick in row `row` (from the top) and column `col`.
pub open spec fn brick_at(row: int, col: int, view_y: int) -> Quad {
    Quad {
        pos: Vec2 {
            x: ((BRICK_WIDTH + UNIT) * col + UNIT) as i64,
            y: (view_y - (BRICK_HEIGHT + UNIT) * (row + 1)) as i64,
        },
        vel: Vec2 { x: 0, y: 0 },
        dims: Vec2 { x: BRICK_WIDTH, y: BRICK_HEIGHT },
        color: spec_row_color(row),
        breakable: true,
    }
}

/// The paddle at the start: four bricks wide, a brick high, near the bottom.
pub open spec fn start_paddle(view_y: int) -> Quad {
    Quad {
        pos: Vec2 { x: (VIEW_WIDTH / 2 - BRICK_WIDTH / 2) as i64, y: (view_y / 20) as i64 },
        vel: Vec2 { x: 0, y: 0 },
        dims: Vec2 { x: (4 * BRICK_WIDTH) as i64, y: BRICK_HEIGHT },
        color: Color::White,
        breakable: false,
    }
}

/// Where a ball spawned above `paddle` starts: over its middle, less half a
/// unit, three paddle heights up.
pub open spec fn launch_point(paddle: Quad) -> Vec2 {
    Vec2 {
        x: (paddle.pos.x + paddle.dims.x / 2 - UNIT / 2) as i64,
        y: (paddle.pos.y + 3 * paddle.dims.y) as i64,
    }
}

/// The draw entry of a ball: a square as wide as its radius, in white.
pub open spec fn ball_quad(b: Ball) -> DrawQuad {
    DrawQuad { pos: b.pos, dims: Vec2 { x: b.radius, y: b.radius }, color: Color::White }
}

pub open spec fn brick_quad(q: Quad) -> DrawQuad {
    DrawQuad { pos: q.pos, dims: q.dims, color: q.color }
}

/// The horizontal paddle velocity for the held controls.
pub open spec fn paddle_velocity(held: Held) -> int {
    (if held.right { PADDLE_SPEED } else { 0 }) - (if held.left { PADDLE_SPEED } else { 0 })
}

impl Game {
    /// The playfield is positive and well inside the accepted range, the world
    /// is well formed, the paddle lies across the playfield, and the spare
    /// buffer is cleared, ready for the next tick.
    pub open spec fn wf(&self) -> bool {
        &&& self.world@.wf()
        &&& self.next@.is_cleared()
        &&& 0 < self.view.x <= COORD_LIMIT / 2
        &&& 0 < self.view.y <= COORD_LIMIT / 2
        &&& 0 <= self.world@.paddle.pos.x <= self.view.x - self.world@.paddle.dims.x
        &&& 0 <= self.world@.paddle.pos.y <= self.view.y
        &&& 0 <= self.world@.paddle.dims.x <= self.view.x
        &&& 0 <= self.world@.paddle.dims.y <= COORD_LIMIT / 8
        &&& self.launch.in_range()
    }
}

/// `after` is `before` with one ball, spawned at `pos`, added at the end.
pub open spec fn spawned_one(before: WorldView, after: WorldView, pos: Vec2) -> bool {
    &&& after.balls.len() == before.balls.len() + 1
    &&& after.balls.drop_last() == before.balls
    &&& launched_from(after.balls.last(), pos)
    &&& after.bricks == before.bricks
    &&& after.paddle == before.paddle
}

proof fn lemma_spawn_keeps_wf(before: WorldView, after: WorldView)
    requires
        before.wf(),
        after.balls.drop_last() == before.balls,
        after.balls.len() == before.balls.len() + 1,
        after.balls.last().wf(),
        after.bricks == before.bricks,
        after.paddle == before.paddle,
    ensures
        after.wf(),
{
    assert forall|i: int| 0 <= i < after.balls.len() implies (#[trigger] after.balls[i]).wf() by {
        if i < before.balls.len() {
            assert(after.balls[i] == after.balls.drop_last()[i]);
        }
    }
}

/// The draw entry of the paddle: always white.
pub open spec fn paddle_quad(q: Quad) -> DrawQuad {
    DrawQuad { pos: q.pos, dims: q.dims, color: Color::White }
}

/// Every brick of the grid lies in the accepted range.
proof fn lemma_brick_wf(row: int, col: int, view_y: int)
    requires
        0 <= row < ROWS,
        0 <= col < COLUMNS,
        0 < view_y <= COORD_LIMIT / 2,
    ensures
        brick_at(row, col, view_y).wf(),
{
}

fn build_bricks(view_y: i64) -> (r: Vec<Quad>)
    requires
        0 < view_y <= COORD_LIMIT / 2,
    ensures
        r@.len() == ROWS * COLUMNS,
        forall|k: int| 0 <= k < r@.len() ==> #[trigger] r@[k] == brick_at(k / COLUMNS as int, k % COLUMNS as int, view_y as int),
        forall|k: int| 0 <= k < r@.len() ==> (#[trigger] r@[k]).wf(),
{
    let mut bricks: Vec<Quad> = Vec::new();
    let mut row: u64 = 0;
    while row < ROWS
        invariant
            0 < view_y <= COORD_LIMIT / 2,
            row <= ROWS,
            bricks@.len() == row * COLUMNS,
            forall|k: int| 0 <= k < bricks@.len() ==> #[trigger] bricks@[k] == brick_at(k / COLUMNS as int, k % COLUMNS as int, view_y as int),
            forall|k: int| 0 <= k < bricks@.len() ==> (#[trigger] bricks@[k]).wf(),
        decreases ROWS - row,
    {
        let color = row_color(row);
        let y = view_y - (BRICK_HEIGHT + UNIT) * ((row as i64) + 1);
        let mut col: u64 = 0;
        while col < COLUMNS
            invariant
                0 < view_y <= COORD_LIMIT / 2,
                row < ROWS,
                col <= COLUMNS,
                color == spec_row_color(row as int),
                y == view_y - (BRICK_HEIGHT + UNIT) * (row + 1),
                bricks@.len() == row * COLUMNS + col,
                forall|k: int| 0 <= k < bricks@.len() ==> #[trigger] bricks@[k] == brick_at(k / COLUMNS as int, k % COLUMNS as int, view_y as int),
                forall|k: int| 0 <= k < bricks@.len() ==> (#[trigger] bricks@[k]).wf(),
            decreases COLUMNS - col,
        {
            let ghost k = row * COLUMNS + col;
            assert(k / 14 == row && k % 14 == col) by (nonlinear_arith)
                requires
                    k == row * 14 + col,
                    0 <= col < 14,
                    0 <= row,
            ;
            let x = (BRICK_WIDTH + UNIT) * (col as i64) + UNIT;
            let q = Quad {
                pos: Vec2 { x, y },
                vel: Vec2::zero(),
                dims: Vec2 { x: BRICK_WIDTH, y: BRICK_HEIGHT },
                color,
                breakable: true,
            };
            proof {
                lemma_brick_wf(row as int, col as int, view_y as int);
            }
            bricks.push(q);
            col += 1;
        }
        row += 1;
    }
    bricks
}

impl Game {
    /// A new game for a window of the given size: the brick grid, the paddle
    /// and one ball on it.
    pub fn new(window_width: i32, window_height: i32) -> (r: Game)
        requires
            0 < window_width,
            0 < window_height <= 1000 * window_width,
            view_height(window_width as int, window_height as int) > 0,
        ensures
            r.wf(),
            r.view == (Vec2 { x: VIEW_WIDTH, y: view_height(window_width as int, window_height as int) as i64 }),
            r.world@.bricks.len() == ROWS * COLUMNS,
            forall|k: int| 0 <= k < r.world@.bricks.len() ==> #[trigger] r.world@.bricks[k] == brick_at(k / COLUMNS as int, k % COLUMNS as int, r.view.y as int),
            r.world@.paddle == start_paddle(r.view.y as int),
            r.launch == launch_point(r.world@.paddle),
            r.world@.balls.len() == 1,
            launched_from(r.world@.balls[0], r.launch),
            r.world@.spawned == 1,
            !r.paused,
            r.capture == Capture::Idle,
    {
        let view_y = ((VIEW_WIDTH as i128) * (window_height as i128) / (window_width as i128)) as i64;
        assert(view_y <= COORD_LIMIT / 2) by (nonlinear_arith)
            requires
                view_y == (VIEW_WIDTH as int) * (window_height as int) / (window_width as int),
                0 < window_width,
                0 < window_height <= 1000 * window_width,
        ;
        let mut world = World::new();
        world.bricks = build_bricks(view_y);
        world.paddle = Quad {
            pos: Vec2 { x: VIEW_WIDTH / 2 - BRICK_WIDTH / 2, y: view_y / 20 },
            vel: Vec2::zero(),
            dims: Vec2 { x: 4 * BRICK_WIDTH, y: BRICK_HEIGHT },
            color: Color::White,
            breakable: false,
        };
        let launch = Vec2 {
            x: world.paddle.pos.x + world.paddle.dims.x / 2 - UNIT / 2,
            y: world.paddle.pos.y + 3 * world.paddle.dims.y,
        };
        world.create_ball(launch);
        Game { world, next: World::new(), view: Vec2 { x: VIEW_WIDTH, y: view_y }, launch, paused: false, capture: Capture::Idle }
    }

    /// Carries out one action.
    pub fn handle(&mut self, action: Action) -> (r: Outcome)
        requires
            old(self).wf(),
        ensures
            final(self).wf(),
            final(self).view == old(self).view,
            final(self).launch == old(self).launch,
            action == Action::Quit ==> r == Outcome::Quit && final(self).world@ == old(self).world@
                && final(self).paused == old(self).paused && final(self).capture == old(self).capture,
            action == Action::TogglePause ==> r == Outcome::Continue && final(self).world@ == old(self).world@
                && final(self).paused == !old(self).paused && final(self).capture == old(self).capture,
            action == Action::ClearBalls ==> r == Outcome::Cleared(old(self).world@.balls.len() as usize)
                && final(self).world@ == (WorldView { balls: Seq::empty(), ..old(self).world@ })
                && final(self).paused == old(self).paused && final(self).capture == old(self).capture,
            action == Action::SpawnBall ==> r == Outcome::Continue && spawned_one(
                old(self).world@,
                final(self).world@,
                old(self).launch,
            ) && final(self).paused == old(self).paused && final(self).capture == old(self).capture,
            action == Action::ToggleCapture ==> final(self).world@ == old(self).world@ && final(self).paused
                == old(self).paused && if old(self).capture == Capture::Idle {
                r == Outcome::StartCapture && final(self).capture == Capture::Recording(CAPTURE_FRAMES)
            } else {
                r == Outcome::Continue && final(self).capture == old(self).capture
            },
    {
        match action {
            Action::Quit => Outcome::Quit,
            Action::TogglePause => {
                self.paused = !self.paused;
                Outcome::Continue
            },
            Action::ClearBalls => {
                let n = self.world.balls.len();
                self.world.clear_balls();
                Outcome::Cleared(n)
            },
            Action::SpawnBall => {
                self.world.create_ball(self.launch);
                proof {
                    lemma_spawn_keeps_wf(old(self).world@, self.world@);
                }
                Outcome::Continue
            },
            Action::ToggleCapture => {
                match self.capture {
                    Capture::Idle => {
                        self.capture = Capture::Recording(CAPTURE_FRAMES);
                        Outcome::StartCapture
                    },
                    Capture::Recording(_) => Outcome::Continue,
                }
            },
        }
    }

    /// Spawns a ball at the launch point above the paddle where it is now.
    pub fn spawn_on_paddle(&mut self)
        requires
            old(self).wf(),
        ensures
            final(self).wf(),
            spawned_one(old(self).world@, final(self).world@, launch_point(old(self).world@.paddle)),
            final(self).view == old(self).view,
            final(self).launch == old(self).launch,
            final(self).paused == old(self).paused,
            final(self).capture == old(self).capture,
    {
        let p = self.world.paddle;
        let pos = Vec2 { x: p.pos.x + p.dims.x / 2 - UNIT / 2, y: p.pos.y + 3 * p.dims.y };
        self.world.create_ball(pos);
        proof {
            lemma_spawn_keeps_wf(old(self).world@, self.world@);
        }
    }

    /// Advances the simulation by one tick, unless it is paused, with the
    /// paddle driven by the held controls.
    pub fn tick(&mut self, held: Held)
        requires
            old(self).wf(),
        ensures
            final(self).wf(),
            final(self).world@ == if old(self).paused {
                old(self).world@
            } else {
                step(old(self).world@, TICK_MS as int, paddle_velocity(held), old(self).view)
            },
            final(self).next@.is_cleared(),
            final(self).view == old(self).view,
            final(self).launch == old(self).launch,
            final(self).paused == old(self).paused,
            final(self).capture == old(self).capture,
    {
        if self.paused {
            return;
        }
        let mut vx: i64 = 0;
        if held.left {
            vx = vx - PADDLE_SPEED;
        }
        if held.right {
            vx = vx + PADDLE_SPEED;
        }
        update(&mut self.world, &mut self.next, TICK_MS, vx, self.view);
    }

    /// Counts a presented frame against a running capture. When the last frame
    /// is counted the capture ends and the game pauses, so that the recording
    /// can be viewed; the result then says to stop it.
    pub fn frame_done(&mut self) -> (stop: bool)
        requires
            old(self).wf(),
        ensures
            final(self).wf(),
            final(self).world@ == old(self).world@,
            final(self).view == old(self).view,
            final(self).launch == old(self).launch,
            match old(self).capture {
                Capture::Idle => !stop && final(self).capture == Capture::Idle && final(self).paused == old(
                    self,
                ).paused,
                Capture::Recording(n) => if n <= 1 {
                    stop && final(self).capture == Capture::Idle && final(self).paused
                } else {
                    !stop && final(self).capture == Capture::Recording((n - 1) as u32) && final(self).paused
                        == old(self).paused
                },
            },
    {
        match self.capture {
            Capture::Idle => false,
            Capture::Recording(n) => {
                if n <= 1 {
                    self.capture = Capture::Idle;
                    self.paused = true;
                    true
                } else {
                    self.capture = Capture::Recording(n - 1);
                    false
                }
            },
        }
    }

    /// What to draw this frame: every ball, every brick, then the paddle.
    pub fn draw_list(&self) -> (r: Vec<DrawQuad>)
        ensures
            r@.len() == self.world@.balls.len() + self.world@.bricks.len() + 1,
            forall|i: int| 0 <= i < self.world@.balls.len() ==> r@[i] == ball_quad(#[trigger] self.world@.balls[i]),
            forall|i: int|
                0 <= i < self.world@.bricks.len() ==> r@[self.world@.balls.len() + i] == brick_quad(
                    #[trigger] self.world@.bricks[i],
                ),
            r@.last() == paddle_quad(self.world@.paddle),
    {
        let nb = self.world.balls.len();
        let mut out: Vec<DrawQuad> = Vec::new();
        let mut i: usize = 0;
        while i < nb
            invariant
                nb == self.world@.balls.len(),
                i <= nb,
                out@.len() == i,
                forall|k: int| 0 <= k < i ==> out@[k] == ball_quad(#[trigger] self.world@.balls[k]),
            decreases nb - i,
        {
            let b = self.world.balls[i];
            out.push(DrawQuad { pos: b.pos, dims: Vec2 { x: b.radius, y: b.radius }, color: Color::White });
            i += 1;
        }
        let mut j: usize = 0;
        while j < self.world.bricks.len()
            invariant
                nb == self.world@.balls.len(),
                j <= self.world@.bricks.len(),
                out@.len() == nb + j,
                forall|k: int| 0 <= k < nb ==> out@[k] == ball_quad(#[trigger] self.world@.balls[k]),
                forall|k: int| 0 <= k < j ==> out@[nb + k] == brick_quad(#[trigger] self.world@.bricks[k]),
            decreases self.world@.bricks.len() - j,
        {
            let q = self.world.bricks[j];
            out.push(DrawQuad { pos: q.pos, dims: q.dims, color: q.color });
            j += 1;
        }
        let p = self.world.paddle;
        out.push(DrawQuad { pos: p.pos, dims: p.dims, color: Color::White });
        out
    }
}

} // verus!
