//! Positions on the board, the four directions, and distances between cells.

use vstd::prelude::*;

verus! {

/// A cell as a mathematical pair `(x, y)`; `y` grows upward.
pub type Cell = (int, int);

/// A board-relative, zero-indexed position.
#[derive(Clone, Copy, Debug, PartialEq, Eq, Hash, Structural)]
pub struct Coord {
    pub x: i32,
    pub y: i32,
}

impl View for Coord {
    type V = Cell;

    open spec fn view(&self) -> Cell {
        (self.x as int, self.y as int)
    }
}

/// One of the four cardinal moves, listed in priority order.
#[derive(Clone, Copy, Debug, PartialEq, Eq, Hash, Structural)]
pub enum Direction {
    Up,
    Down,
    Left,
    Right,
}

impl Direction {
    /// Place of the direction in the fixed priority order: up, down, left, right.
    pub open spec fn rank(self) -> int {
        match self {
            Direction::Up => 0,
            Direction::Down => 1,
            Direction::Left => 2,
            Direction::Right => 3,
        }
    }

    /// Horizontal component of the unit offset.
    pub open spec fn dx(self) -> int {
        match self {
            Direction::Left => -1,
            Direction::Right => 1,
            _ => 0,
        }
    }

    /// Vertical component of the unit offset.
    pub open spec fn dy(self) -> int {
        match self {
            Direction::Up => 1,
            Direction::Down => -1,
            _ => 0,
        }
    }

    /// The direction that undoes this one.
    pub open spec fn opposite(self) -> Direction {
        match self {
            Direction::Up => Direction::Down,
            Direction::Down => Direction::Up,
            Direction::Left => Direction::Right,
            Direction::Right => Direction::Left,
        }
    }

    /// The lower-case name under which the direction is sent to the game server.
    pub fn as_str(&self) -> (name: &'static str)
        ensures
            *self == Direction::Up ==> name@ == "up"@,
            *self == Direction::Down ==> name@ == "down"@,
            *self == Direction::Left ==> name@ == "left"@,
            *self == Direction::Right ==> name@ == "right"@,
    {
        match self {
            Direction::Up => "up",
            Direction::Down => "down",
            Direction::Left => "left",
            Direction::Right => "right",
        }
    }
}

/// The cell one unit step away from `c` in direction `d`.
pub open spec fn step(c: Cell, d: Direction) -> Cell {
    (c.0 + d.dx(), c.1 + d.dy())
}

/// Whether the step from `c` in direction `d` stays representable.
pub open spec fn can_step_in(c: Cell, d: Direction) -> bool {
    match d {
        Direction::Up => c.1 < i32::MAX,
        Direction::Down => i32::MIN < c.1,
        Direction::Left => i32::MIN < c.0,
        Direction::Right => c.0 < i32::MAX,
    }
}

/// Whether the steps from `c` in all four directions stay representable.
pub open spec fn can_step(c: Cell) -> bool {
    &&& can_step_in(c, Direction::Up)
    &&& can_step_in(c, Direction::Down)
    &&& can_step_in(c, Direction::Left)
    &&& can_step_in(c, Direction::Right)
}

/// Manhattan distance between two cells.
pub open spec fn manhattan(a: Cell, b: Cell) -> int {
    (if a.0 >= b.0 { a.0 - b.0 } else { b.0 - a.0 })
        + (if a.1 >= b.1 { a.1 - b.1 } else { b.1 - a.1 })
}

/// Two cells are adjacent when they share an edge.
pub open spec fn adjacent(a: Cell, b: Cell) -> bool {
    manhattan(a, b) == 1
}

/// A step leads to an adjacent cell, and the step in the opposite direction
/// leads back; the step back is always representable when the start was.
pub proof fn lemma_step_back(c: Cell, d: Direction)
    ensures
        step(step(c, d), d.opposite()) == c,
        manhattan(c, step(c, d)) == 1,
        d.opposite().opposite() == d,
        i32::MIN <= c.0 <= i32::MAX && i32::MIN <= c.1 <= i32::MAX ==> can_step_in(
            step(c, d),
            d.opposite(),
        ),
{
}

/// The position reached from `head` by one step in `direction`. Only the
/// coordinate that the step changes is bounded.
pub fn get_new_position(head: &Coord, direction: Direction) -> (pos: Coord)
    requires
        can_step_in(head@, direction),
    ensures
        pos@ == step(head@, direction),
{
    match direction {
        Direction::Up => Coord { x: head.x, y: head.y + 1 },
        Direction::Down => Coord { x: head.x, y: head.y - 1 },
        Direction::Left => Coord { x: head.x - 1, y: head.y },
        Direction::Right => Coord { x: head.x + 1, y: head.y },
    }
}

/// Manhattan distance between two positions. The result always fits: it is
/// below `2^33`.
pub fn manhattan_distance(a: &Coord, b: &Coord) -> (d: i64)
    ensures
        d == manhattan(a@, b@),
{
    let dx: i64 = a.x as i64 - b.x as i64;
    let dy: i64 = a.y as i64 - b.y as i64;
    let ax: i64 = if dx >= 0 { dx } else { -dx };
    let ay: i64 = if dy >= 0 { dy } else { -dy };
    ax + ay
}

/// A grid cell held by the flood fill on its work stack.
#[derive(Clone, Copy, Debug, PartialEq, Eq, Hash, Structural)]
pub struct Point {
    pub x: i32,
    pub y: i32,
}

impl View for Point {
    type V = Cell;

    open spec fn view(&self) -> Cell {
        (self.x as int, self.y as int)
    }
}

impl Point {
    /// The grid cell at a position.
    pub fn from_coord(coord: &Coord) -> (p: Point)
        ensures
            p@ == coord@,
    {
        Point { x: coord.x, y: coord.y }
    }
}

} // verus!
