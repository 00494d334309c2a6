//! Board geometry shared by every part of the game.

use vstd::prelude::*;

verus! {

/// Number of columns of the board.
pub const WIDTH: i32 = 80;

/// Number of rows of the board.
pub const HEIGHT: i32 = 60;

/// Number of cells of the board.
pub const CELLS: usize = 4800;

/// A cell coordinate `(x, y)`.
#[derive(Clone, Copy, Debug, PartialEq, Eq, Hash, Structural)]
pub struct Point(pub i32, pub i32);

impl Point {
    /// The point lies on the board.
    pub open spec fn on_board(self) -> bool {
        0 <= self.0 < WIDTH && 0 <= self.1 < HEIGHT
    }

    /// Tells whether the point lies on the board.
    pub fn is_on_board(&self) -> (r: bool)
        ensures
            r == self.on_board(),
    {
        0 <= self.0 && self.0 < WIDTH && 0 <= self.1 && self.1 < HEIGHT
    }
}

/// Position of a board cell when the board is read row by row.
pub open spec fn cell_index(p: Point) -> int {
    p.1 * WIDTH + p.0
}

/// The board cell at position `k` when the board is read row by row.
pub fn cell_at(k: usize) -> (p: Point)
    requires
        k < CELLS,
    ensures
        p.on_board(),
        cell_index(p) == k,
{
    Point((k % 80) as i32, (k / 80) as i32)
}

/// Heading of a snake.
#[derive(Clone, Copy, Debug, PartialEq, Eq, Hash, Structural)]
pub enum Direction {
    Up,
    Down,
    Left,
    Right,
}

impl Direction {
    /// The byte that stands for the direction on the wire.
    pub open spec fn spec_code(self) -> u8 {
        match self {
            Direction::Up => 1,
            Direction::Down => 2,
            Direction::Left => 3,
            Direction::Right => 4,
        }
    }

    /// The direction that a wire byte stands for, if any.
    pub open spec fn spec_from_code(code: u8) -> Option<Direction> {
        if code == 1 {
            Some(Direction::Up)
        } else if code == 2 {
            Some(Direction::Down)
        } else if code == 3 {
            Some(Direction::Left)
        } else if code == 4 {
            Some(Direction::Right)
        } else {
            None
        }
    }

    /// The direction pointing the other way.
    pub open spec fn spec_opposite(self) -> Direction {
        match self {
            Direction::Up => Direction::Down,
            Direction::Down => Direction::Up,
            Direction::Left => Direction::Right,
            Direction::Right => Direction::Left,
        }
    }

    /// Encodes the direction as its wire byte.
    pub fn code(self) -> (c: u8)
        ensures
            c == self.spec_code(),
    {
        match self {
            Direction::Up => 1,
            Direction::Down => 2,
            Direction::Left => 3,
            Direction::Right => 4,
        }
    }

    /// Decodes a wire byte; `None` for a byte that names no direction.
    pub fn from_code(code: u8) -> (d: Option<Direction>)
        ensures
            d == Direction::spec_from_code(code),
    {
        match code {
            1 => Some(Direction::Up),
            2 => Some(Direction::Down),
            3 => Some(Direction::Left),
            4 => Some(Direction::Right),
            _ => None,
        }
    }

    /// Returns the direction pointing the other way.
    pub fn opposite(self) -> (d: Direction)
        ensures
            d == self.spec_opposite(),
    {
        match self {
            Direction::Up => Direction::Down,
            Direction::Down => Direction::Up,
            Direction::Left => Direction::Right,
            Direction::Right => Direction::Left,
        }
    }
}

/// Horizontal displacement of one step.
pub open spec fn dx(d: Direction) -> int {
    match d {
        Direction::Left => -1,
        Direction::Right => 1,
        _ => 0,
    }
}

/// Vertical displacement of one step.
pub open spec fn dy(d: Direction) -> int {
    match d {
        Direction::Up => -1,
        Direction::Down => 1,
        _ => 0,
    }
}

/// One coordinate after a step: a value that left the range `0..extent` by
/// one re-enters from the other side, any other value stays as it is.
pub open spec fn wrap(v: int, extent: int) -> int {
    if v == -1 {
        extent - 1
    } else if v == extent {
        0
    } else {
        v
    }
}

/// The cell reached from `p` by one step in direction `d` on the torus.
pub open spec fn step(p: Point, d: Direction) -> Point {
    Point(wrap(p.0 + dx(d), WIDTH as int) as i32, wrap(p.1 + dy(d), HEIGHT as int) as i32)
}

/// The cell immediately to the left of `p` on the torus.
pub open spec fn left_of(p: Point) -> Point {
    step(p, Direction::Left)
}

/// Computes [`step`] for a point on the board.
pub fn step_point(p: Point, d: Direction) -> (q: Point)
    requires
        p.on_board(),
    ensures
        q == step(p, d),
        q.on_board(),
{
    match d {
        Direction::Up => Point(p.0, if p.1 == 0 { HEIGHT - 1 } else { p.1 - 1 }),
        Direction::Down => Point(p.0, if p.1 == HEIGHT - 1 { 0 } else { p.1 + 1 }),
        Direction::Left => Point(if p.0 == 0 { WIDTH - 1 } else { p.0 - 1 }, p.1),
        Direction::Right => Point(if p.0 == WIDTH - 1 { 0 } else { p.0 + 1 }, p.1),
    }
}

/// Stepping is arithmetic modulo the board's extent. A step stays on the
/// board; each coordinate is the plain sum reduced modulo the extent of its
/// axis; and it differs from the plain sum exactly when that sum is `-1`,
/// where it becomes the extent less one, or the extent, where it becomes
/// zero.
pub proof fn lemma_step_is_torus(p: Point, d: Direction)
    requires
        p.on_board(),
    ensures
        step(p, d).on_board(),
        step(p, d).0 == (p.0 + dx(d)) % (WIDTH as int),
        step(p, d).1 == (p.1 + dy(d)) % (HEIGHT as int),
        (step(p, d).0 != p.0 + dx(d)) <==> (p.0 + dx(d) == -1 || p.0 + dx(d) == WIDTH),
        (step(p, d).1 != p.1 + dy(d)) <==> (p.1 + dy(d) == -1 || p.1 + dy(d) == HEIGHT),
        p.0 + dx(d) == -1 ==> step(p, d).0 == WIDTH - 1,
        p.0 + dx(d) == WIDTH ==> step(p, d).0 == 0,
        p.1 + dy(d) == -1 ==> step(p, d).1 == HEIGHT - 1,
        p.1 + dy(d) == HEIGHT ==> step(p, d).1 == 0,
{
}

} // verus!
