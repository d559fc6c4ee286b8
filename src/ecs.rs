use vstd::prelude::*;

use crate::color::Color;
use crate::vector::Vec2;

verus! {

/// A display name of an entity.
#[derive(Clone, Debug)]
pub struct Name(pub String);

impl Name {
    /// The name as text.
    pub fn to_string(&self) -> (r: String)
        ensures
            r@ == self.0@,
    {
        self.0.clone()
    }
}

/// Where an entity is.
#[derive(Clone, Copy, Debug, PartialEq, Eq, Structural)]
pub struct Position(pub Vec2);

/// How fast an entity moves, in grid steps per millisecond.
#[derive(Clone, Copy, Debug, PartialEq, Eq, Structural)]
pub struct Velocity(pub Vec2);

/// An entity that balls collide with as a box of this size.
#[derive(Clone, Copy, Debug, PartialEq, Eq, Structural)]
pub struct HitableQuad {
    pub dims: Vec2,
}

/// An entity that collides as a circle of this radius.
#[derive(Clone, Copy, Debug, PartialEq, Eq, Structural)]
pub struct HitableBall {
    pub radius: i64,
}

/// An entity drawn as a colored box of this size.
#[derive(Clone, Copy, Debug, PartialEq, Eq, Structural)]
pub struct DrawableColoredQuad {
    pub dims: Vec2,
    pub color: Color,
}

/// An entity drawn as a colored circle of this radius.
#[derive(Clone, Copy, Debug, PartialEq, Eq, Structural)]
pub struct DrawableColoredBall {
    pub radius: i64,
    pub color: Color,
}

/// Marks the player's paddle.
#[derive(Clone, Copy, Debug, PartialEq, Eq, Structural)]
pub struct Paddle;

/// Marks an entity that a hit removes.
#[derive(Clone, Copy, Debug, PartialEq, Eq, Structural)]
pub struct Breakable;

/// A pending bounce along this normal direction.
#[derive(Clone, Copy, Debug, PartialEq, Eq, Structural)]
pub struct Bounce(pub Vec2);

} // verus!
