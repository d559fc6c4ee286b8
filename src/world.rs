use vstd::prelude::*;

use crate::color::Color;
use crate::math::{launch_ok, random_direction, spread_of};
use crate::vector::{Vec2, COORD_LIMIT};

verus! {

/// Radius of a spawned ball: one world unit.
pub const BALL_RADIUS: i64 = 1000000;

/// Launch speed of a spawned ball: 135 world units per second, in grid steps
/// per millisecond.
pub const LAUNCH_SPEED: i64 = 135000;

/// A ball: its center, its velocity (grid steps per millisecond) and its radius.
#[derive(Clone, Copy, Debug, PartialEq, Eq, Structural)]
pub struct Ball {
    pub pos: Vec2,
    pub vel: Vec2,
    pub radius: i64,
}

/// A brick or the paddle: its corner, velocity and size, its display color,
/// and whether a hit removes it.
#[derive(Clone, Copy, Debug, PartialEq, Eq, Structural)]
pub struct Quad {
    pub pos: Vec2,
    pub vel: Vec2,
    pub dims: Vec2,
    pub color: Color,
    pub breakable: bool,
}

/// The live game objects: balls, bricks and the one paddle, with the number of
/// balls spawned since the world was last reset.
#[derive(Clone, Debug)]
pub struct World {
    pub balls: Vec<Ball>,
    pub bricks: Vec<Quad>,
    pub paddle: Quad,
    pub spawned: u64,
}

/// What a world holds, as mathematical values.
pub ghost struct WorldView {
    pub balls: Seq<Ball>,
    pub bricks: Seq<Quad>,
    pub paddle: Quad,
    pub spawned: u64,
}

impl View for World {
    type V = WorldView;

    open spec fn view(&self) -> WorldView {
        WorldView { balls: self.balls@, bricks: self.bricks@, paddle: self.paddle, spawned: self.spawned }
    }
}

impl Ball {
    /// Position and velocity lie in the accepted range; the radius is positive.
    pub open spec fn wf(self) -> bool {
        self.pos.in_range() && self.vel.in_range() && 0 < self.radius <= COORD_LIMIT
    }
}

impl Quad {
    /// Position, velocity and size lie in the accepted range; the size is not negative.
    pub open spec fn wf(self) -> bool {
        self.pos.in_range() && self.vel.in_range() && self.dims.in_range() && self.dims.x >= 0
            && self.dims.y >= 0
    }

    /// The quad a cleared world holds as its paddle: all zero, white, unbreakable.
    pub open spec fn spec_empty() -> Quad {
        Quad {
            pos: Vec2 { x: 0, y: 0 },
            vel: Vec2 { x: 0, y: 0 },
            dims: Vec2 { x: 0, y: 0 },
            color: Color::White,
            breakable: false,
        }
    }

    pub fn empty() -> (r: Quad)
        ensures
            r == Quad::spec_empty(),
    {
        Quad { pos: Vec2::zero(), vel: Vec2::zero(), dims: Vec2::zero(), color: Color::White, breakable: false }
    }
}

impl WorldView {
    /// An emptied buffer: no balls or bricks, the empty paddle, no spawn count.
    pub open spec fn is_cleared(self) -> bool {
        &&& self.balls.len() == 0
        &&& self.bricks.len() == 0
        &&& self.paddle == Quad::spec_empty()
        &&& self.spawned == 0
    }

    pub open spec fn wf(self) -> bool {
        &&& forall|i: int| 0 <= i < self.balls.len() ==> (#[trigger] self.balls[i]).wf()
        &&& forall|i: int| 0 <= i < self.bricks.len() ==> (#[trigger] self.bricks[i]).wf()
        &&& self.paddle.wf()
    }
}

/// `b` is a ball freshly spawned at `pos`: unit radius, launched up at
/// `LAUNCH_SPEED` within the launch spread.
pub open spec fn launched_from(b: Ball, pos: Vec2) -> bool {
    &&& b.pos == pos
    &&& b.radius == BALL_RADIUS
    &&& -spread_of(LAUNCH_SPEED as int) <= b.vel.x <= spread_of(LAUNCH_SPEED as int)
    &&& launch_ok(b.vel, b.vel.x as int, LAUNCH_SPEED as int)
    &&& b.vel.y > 0
}

impl World {
    /// An empty world.
    pub fn new() -> (r: World)
        ensures
            r@.balls.len() == 0,
            r@.bricks.len() == 0,
            r@.paddle == Quad::spec_empty(),
            r@.spawned == 0,
            r@.wf(),
    {
        World { balls: Vec::new(), bricks: Vec::new(), paddle: Quad::empty(), spawned: 0 }
    }

    /// Empties the world, keeping its storage for reuse.
    pub fn reset(&mut self)
        ensures
            final(self)@.balls.len() == 0,
            final(self)@.bricks.len() == 0,
            final(self)@.paddle == Quad::spec_empty(),
            final(self)@.spawned == 0,
            final(self)@.is_cleared(),
    {
        self.balls.clear();
        self.bricks.clear();
        self.paddle = Quad::empty();
        self.spawned = 0;
    }

    /// Removes every ball; nothing else changes.
    pub fn clear_balls(&mut self)
        ensures
            final(self)@ == (WorldView { balls: Seq::empty(), ..old(self)@ }),
    {
        self.balls.clear();
        assert(self.balls@ =~= Seq::<Ball>::empty());
    }

    /// Spawns a ball at `pos`, launched up in a random direction.
    pub fn create_ball(&mut self, pos: Vec2)
        requires
            pos.in_range(),
        ensures
            final(self)@.balls.len() == old(self)@.balls.len() + 1,
            final(self)@.balls.drop_last() == old(self)@.balls,
            launched_from(final(self)@.balls.last(), pos),
            final(self)@.balls.last().wf(),
            final(self)@.bricks == old(self)@.bricks,
            final(self)@.paddle == old(self)@.paddle,
            final(self)@.spawned == if old(self)@.spawned < u64::MAX {
                old(self)@.spawned + 1
            } else {
                old(self)@.spawned as int
            },
    {
        let vel = random_direction(LAUNCH_SPEED);
        self.balls.push(Ball { pos, vel, radius: BALL_RADIUS });
        if self.spawned < u64::MAX {
            self.spawned = self.spawned + 1;
        }
        assert(self.balls@.drop_last() =~= old(self).balls@);
    }
}

} // verus!
