use vstd::prelude::*;

verus! {

/// The display colors of the game's quads. Rendering maps each to its RGB
/// value; the simulation never reads them.
#[derive(Clone, Copy, Debug, PartialEq, Eq, Structural)]
pub enum Color {
    White,
    Red,
    Orange,
    Green,
    Yellow,
    /// Rows beyond the colored bands.
    OhnoPink,
}

/// The color of brick row `row`, counted from the top: two rows each of red,
/// orange, green and yellow, then pink.
pub open spec fn spec_row_color(row: int) -> Color {
    if row <= 1 {
        Color::Red
    } else if row <= 3 {
        Color::Orange
    } else if row <= 5 {
        Color::Green
    } else if row <= 7 {
        Color::Yellow
    } else {
        Color::OhnoPink
    }
}

pub fn row_color(row: u64) -> (r: Color)
    ensures
        r == spec_row_color(row as int),
{
    if row <= 1 {
        Color::Red
    } else if row <= 3 {
        Color::Orange
    } else if row <= 5 {
        Color::Green
    } else if row <= 7 {
        Color::Yellow
    } else {
        Color::OhnoPink
    }
}

} // verus!
