//! Immutable trace cursor: a pixel position plus a compass heading, with
//! pure transition functions used by the boundary tracer.

use vstd::prelude::*;

verus! {

/// One of the eight compass headings, enumerated counterclockwise as drawn
/// on the screen (the y axis grows downward, so North means y - 1).
#[derive(Debug, Copy, Clone, PartialEq, Eq, Structural)]
pub enum Heading {
    East,
    NorthEast,
    North,
    NorthWest,
    West,
    SouthWest,
    South,
    SouthEast,
}

/// Quarter turn counterclockwise on the screen: the tracer's preferred
/// rotational sense.
pub open spec fn quarter_left(h: Heading) -> Heading {
    match h {
        Heading::East => Heading::North,
        Heading::NorthEast => Heading::NorthWest,
        Heading::North => Heading::West,
        Heading::NorthWest => Heading::SouthWest,
        Heading::West => Heading::South,
        Heading::SouthWest => Heading::SouthEast,
        Heading::South => Heading::East,
        Heading::SouthEast => Heading::NorthEast,
    }
}

/// Quarter turn clockwise on the screen: the opposite rotational sense,
/// used when the preferred candidate fails the foreground test.
pub open spec fn quarter_right(h: Heading) -> Heading {
    match h {
        Heading::East => Heading::South,
        Heading::NorthEast => Heading::SouthEast,
        Heading::North => Heading::East,
        Heading::NorthWest => Heading::NorthEast,
        Heading::West => Heading::North,
        Heading::SouthWest => Heading::NorthWest,
        Heading::South => Heading::West,
        Heading::SouthEast => Heading::SouthWest,
    }
}

/// Horizontal displacement of one step along a heading.
pub open spec fn head_dx(h: Heading) -> int {
    match h {
        Heading::East => 1,
        Heading::NorthEast => 1,
        Heading::North => 0,
        Heading::NorthWest => -1,
        Heading::West => -1,
        Heading::SouthWest => -1,
        Heading::South => 0,
        Heading::SouthEast => 1,
    }
}

/// Vertical displacement of one step along a heading (screen coordinates).
pub open spec fn head_dy(h: Heading) -> int {
    match h {
        Heading::East => 0,
        Heading::NorthEast => -1,
        Heading::North => -1,
        Heading::NorthWest => -1,
        Heading::West => 0,
        Heading::SouthWest => 1,
        Heading::South => 1,
        Heading::SouthEast => 1,
    }
}

/// Position of a heading in the counterclockwise enumeration.
pub open spec fn heading_index(h: Heading) -> int {
    match h {
        Heading::East => 0,
        Heading::NorthEast => 1,
        Heading::North => 2,
        Heading::NorthWest => 3,
        Heading::West => 4,
        Heading::SouthWest => 5,
        Heading::South => 6,
        Heading::SouthEast => 7,
    }
}

impl Heading {
    pub fn turn_left(self) -> (r: Heading)
        ensures
            r == quarter_left(self),
    {
        match self {
            Heading::East => Heading::North,
            Heading::NorthEast => Heading::NorthWest,
            Heading::North => Heading::West,
            Heading::NorthWest => Heading::SouthWest,
            Heading::West => Heading::South,
            Heading::SouthWest => Heading::SouthEast,
            Heading::South => Heading::East,
            Heading::SouthEast => Heading::NorthEast,
        }
    }

    pub fn turn_right(self) -> (r: Heading)
        ensures
            r == quarter_right(self),
    {
        match self {
            Heading::East => Heading::South,
            Heading::NorthEast => Heading::SouthEast,
            Heading::North => Heading::East,
            Heading::NorthWest => Heading::NorthEast,
            Heading::West => Heading::North,
            Heading::SouthWest => Heading::NorthWest,
            Heading::South => Heading::West,
            Heading::SouthEast => Heading::SouthWest,
        }
    }

    pub fn step_x(self) -> (d: i64)
        ensures
            d as int == head_dx(self),
    {
        match self {
            Heading::East => 1,
            Heading::NorthEast => 1,
            Heading::North => 0,
            Heading::NorthWest => -1,
            Heading::West => -1,
            Heading::SouthWest => -1,
            Heading::South => 0,
            Heading::SouthEast => 1,
        }
    }

    pub fn step_y(self) -> (d: i64)
        ensures
            d as int == head_dy(self),
    {
        match self {
            Heading::East => 0,
            Heading::NorthEast => -1,
            Heading::North => -1,
            Heading::NorthWest => -1,
            Heading::West => 0,
            Heading::SouthWest => 1,
            Heading::South => 1,
            Heading::SouthEast => 1,
        }
    }
}

/// Mathematical view of a cursor: exact integer position plus heading.
#[verifier::ext_equal]
pub struct CursorView {
    pub x: int,
    pub y: int,
    pub heading: Heading,
}

impl CursorView {
    /// Rotate a quarter in the preferred sense and step into the resulting
    /// neighbor cell.
    pub open spec fn preferred(self) -> CursorView {
        let h = quarter_left(self.heading);
        CursorView { x: self.x + head_dx(h), y: self.y + head_dy(h), heading: h }
    }

    /// Rotate a quarter in the opposite sense and step into the resulting
    /// neighbor cell.
    pub open spec fn fallback(self) -> CursorView {
        let h = quarter_right(self.heading);
        CursorView { x: self.x + head_dx(h), y: self.y + head_dy(h), heading: h }
    }
}

/// Cursor at (x, y) with the canonical initial heading.
pub open spec fn start_cursor(x: int, y: int) -> CursorView {
    CursorView { x, y, heading: Heading::East }
}

/// Immutable trace cursor. Two cursors are equal exactly when both the
/// position and the heading match; the tracer's stopping test relies on
/// that double condition.
#[derive(Debug, Copy, Clone, PartialEq, Eq, Structural)]
pub struct Turtle {
    pub x: i64,
    pub y: i64,
    pub heading: Heading,
}

impl View for Turtle {
    type V = CursorView;

    open spec fn view(&self) -> CursorView {
        CursorView { x: self.x as int, y: self.y as int, heading: self.heading }
    }
}

impl Turtle {
    /// Cursor at (x, y) with the canonical initial heading; used once per
    /// trace.
    pub fn new(x: u32, y: u32) -> (t: Turtle)
        ensures
            t@ == start_cursor(x as int, y as int),
    {
        Turtle { x: x as i64, y: y as i64, heading: Heading::East }
    }

    /// The next pixel to test: rotate a quarter in the preferred sense and
    /// step into the neighbor ahead.
    pub fn candidate_preferred(&self) -> (t: Turtle)
        requires
            i64::MIN < self@.x < i64::MAX,
            i64::MIN < self@.y < i64::MAX,
        ensures
            t@ == self@.preferred(),
    {
        let h = self.heading.turn_left();
        Turtle { x: self.x + h.step_x(), y: self.y + h.step_y(), heading: h }
    }

    /// The candidate tried when the preferred one fails the foreground
    /// test: rotate a quarter the other way and step into that neighbor.
    pub fn candidate_fallback(&self) -> (t: Turtle)
        requires
            i64::MIN < self@.x < i64::MAX,
            i64::MIN < self@.y < i64::MAX,
        ensures
            t@ == self@.fallback(),
    {
        let h = self.heading.turn_right();
        Turtle { x: self.x + h.step_x(), y: self.y + h.step_y(), heading: h }
    }
}

} // verus!
