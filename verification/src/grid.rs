//! Grid cells, the four directions of travel and the arena's extent.

use vstd::prelude::*;

verus! {

/// Number of columns of the arena; valid `x` coordinates are `0..ARENA_WIDTH`.
pub const ARENA_WIDTH: i32 = 20;

/// Number of rows of the arena; valid `y` coordinates are `0..ARENA_HEIGHT`.
pub const ARENA_HEIGHT: i32 = 20;

/// One of the four directions in which the snake travels.
#[derive(Clone, Copy, Debug, PartialEq, Eq, Hash, Structural)]
pub enum Direction {
    Left,
    Up,
    Right,
    Down,
}

impl Direction {
    /// The direction that points the other way.
    pub open spec fn spec_opposite(self) -> Direction {
        match self {
            Direction::Left => Direction::Right,
            Direction::Right => Direction::Left,
            Direction::Up => Direction::Down,
            Direction::Down => Direction::Up,
        }
    }

    /// Horizontal part of one step in this direction.
    pub open spec fn dx(self) -> int {
        match self {
            Direction::Left => -1,
            Direction::Right => 1,
            _ => 0,
        }
    }

    /// Vertical part of one step in this direction.
    pub open spec fn dy(self) -> int {
        match self {
            Direction::Up => 1,
            Direction::Down => -1,
            _ => 0,
        }
    }

    /// The direction that points the other way.
    #[verifier::when_used_as_spec(spec_opposite)]
    pub fn opposite(self) -> (r: Direction)
        ensures
            r == self.spec_opposite(),
    {
        match self {
            Direction::Left => Direction::Right,
            Direction::Right => Direction::Left,
            Direction::Up => Direction::Down,
            Direction::Down => Direction::Up,
        }
    }
}

/// Turning round twice gives the first direction back, a direction is never
/// its own opposite, and a step followed by the opposite step cancels.
pub proof fn lemma_opposite(d: Direction)
    ensures
        d.spec_opposite().spec_opposite() == d,
        d.spec_opposite() != d,
        d.spec_opposite().dx() == -d.dx(),
        d.spec_opposite().dy() == -d.dy(),
{
}

/// A cell of the grid. Nothing in the type keeps it inside the arena.
#[derive(Clone, Copy, Debug, PartialEq, Eq, Hash, Default, Structural)]
pub struct Position {
    pub x: i32,
    pub y: i32,
}

impl Position {
    /// The cell lies inside the arena.
    pub open spec fn in_arena(self) -> bool {
        0 <= self.x < ARENA_WIDTH && 0 <= self.y < ARENA_HEIGHT
    }

    /// Both coordinates leave room for one step in any direction.
    pub open spec fn can_step(self) -> bool {
        i32::MIN < self.x < i32::MAX && i32::MIN < self.y < i32::MAX
    }

    /// The neighbouring cell one step away in direction `d`.
    pub open spec fn stepped(self, d: Direction) -> Position
        recommends
            self.can_step(),
    {
        Position { x: (self.x + d.dx()) as i32, y: (self.y + d.dy()) as i32 }
    }

    /// Tells whether the cell lies inside the arena.
    pub fn is_in_arena(self) -> (b: bool)
        ensures
            b == self.in_arena(),
    {
        0 <= self.x && self.x < ARENA_WIDTH && 0 <= self.y && self.y < ARENA_HEIGHT
    }

    /// The neighbouring cell one step away in direction `d`:
    /// left and right change `x`, up raises `y` and down lowers it.
    pub fn step(self, d: Direction) -> (r: Position)
        requires
            self.can_step(),
        ensures
            r == self.stepped(d),
            r.x == self.x + d.dx(),
            r.y == self.y + d.dy(),
    {
        match d {
            Direction::Left => Position { x: self.x - 1, y: self.y },
            Direction::Right => Position { x: self.x + 1, y: self.y },
            Direction::Up => Position { x: self.x, y: self.y + 1 },
            Direction::Down => Position { x: self.x, y: self.y - 1 },
        }
    }
}

/// Every cell of the arena leaves room for a step, and a step from inside the
/// arena ends at most one cell outside it.
pub proof fn lemma_arena_step(p: Position, d: Direction)
    requires
        p.in_arena(),
    ensures
        p.can_step(),
        -1 <= p.stepped(d).x <= ARENA_WIDTH,
        -1 <= p.stepped(d).y <= ARENA_HEIGHT,
        p.stepped(d) != p,
{
}

} // verus!
