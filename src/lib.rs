//! Collision detection and per-tick simulation for a Breakout-style game.
//!
//! All geometry is exact integer arithmetic on a fixed-point grid: one world
//! unit is [`vector::UNIT`] grid steps, and velocities are grid steps per
//! millisecond.
//!
//! - `vector`: the grid vector and its accepted range.
//! - `math`: boxes, the slab test of a segment against a box, swept boxes,
//!   and launch directions.
//! - `world`: balls, bricks, the paddle, and the world that holds them.
//! - `sim`: circle-against-box contact, bounces, and the double-buffered tick.
//! - `game`: the brick layout, player actions, pausing, the capture countdown
//!   and the draw list.
//! - `color`, `ecs`, `audio`: display colors, entity components, and
//!   waveform generators.

pub mod audio;
pub mod color;
pub mod ecs;
pub mod game;
pub mod math;
pub mod sim;
pub mod vector;
pub mod world;
