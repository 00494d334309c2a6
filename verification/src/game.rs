//! The game for one player: a single snake, played without a server.

use crate::random::{random_index, seeded_rng};
use crate::server::game::SnakeView;
use crate::util::{cell_at, cell_index, step_point, Point, CELLS};
use rand::rngs::StdRng;
use std::collections::VecDeque;
use vstd::prelude::*;

pub use crate::util::Direction;

verus! {

/// The snake with the heading that a player's wish gives it: the wished
/// heading, unless that is the reverse of the current one.
pub open spec fn steered(s: SnakeView, wanted: Direction) -> SnakeView {
    if wanted != s.direction.spec_opposite() {
        s.turned(wanted)
    } else {
        s
    }
}

/// The player's snake.
pub struct Snake {
    body: VecDeque<Point>,
    head: Point,
    direction: Direction,
}

impl View for Snake {
    type V = SnakeView;

    closed spec fn view(&self) -> SnakeView {
        SnakeView { body: self.body@, head: self.head, direction: self.direction }
    }
}

impl Snake {
    /// The snake at the start of a game: head on `(3, 3)`, one body segment
    /// on `(2, 3)`, heading right.
    pub fn default() -> (s: Self)
        ensures
            s@ == (SnakeView {
                body: seq![Point(2, 3)],
                head: Point(3, 3),
                direction: Direction::Right,
            }),
            s@.wf(),
    {
        let mut body: VecDeque<Point> = VecDeque::new();
        body.push_back(Point(2, 3));
        let s = Snake { body, head: Point(3, 3), direction: Direction::Right };
        s
    }

    /// The cell of the head.
    pub fn head(&self) -> (p: Point)
        ensures
            p == self@.head,
    {
        self.head
    }

    /// The current heading.
    pub fn direction(&self) -> (d: Direction)
        ensures
            d == self@.direction,
    {
        self.direction
    }

    /// The body cells, from the tail to the segment behind the head.
    pub fn body(&self) -> (cells: Vec<Point>)
        ensures
            cells@ == self@.body,
    {
        let mut cells: Vec<Point> = Vec::new();
        let mut i: usize = 0;
        while i < self.body.len()
            invariant
                i <= self.body@.len(),
                cells@ == self.body@.subrange(0, i as int),
            decreases self.body@.len() - i,
        {
            cells.push(self.body[i]);
            i += 1;
        }
        cells
    }

    /// Tells whether the snake lies on `p`.
    pub fn occupies(&self, p: Point) -> (r: bool)
        ensures
            r == self@.occupies(p),
    {
        if self.head == p {
            return true;
        }
        let mut i: usize = 0;
        while i < self.body.len()
            invariant
                i <= self.body@.len(),
                forall|k: int| 0 <= k < i ==> self.body@[k] != p,
            decreases self.body@.len() - i,
        {
            if self.body[i] == p {
                return true;
            }
            i += 1;
        }
        false
    }

    /// Steps the head one cell in the current heading, wrapping at the
    /// board's edges; the old head becomes the newest body segment.
    pub fn update_head(&mut self)
        requires
            old(self)@.wf(),
        ensures
            final(self)@ == old(self)@.moved(),
            final(self)@.wf(),
    {
        let next_head = step_point(self.head, self.direction);
        self.body.push_back(self.head);
        self.head = next_head;
    }

    /// Turns the snake to `direction`, unless that is the reverse of its
    /// heading: a snake does not turn back on itself.
    pub fn change_direction(&mut self, direction: Direction)
        ensures
            final(self)@ == steered(old(self)@, direction),
    {
        if self.direction == direction {
            return;
        }
        if direction != self.direction.opposite() {
            self.direction = direction;
        }
    }

    /// Drops the oldest body segment.
    fn drop_tail(&mut self)
        requires
            old(self)@.body.len() >= 1,
        ensures
            final(self)@ == old(self)@.shrunk(),
    {
        let _ = self.body.pop_front();
    }
}

/// What the game is: the snake and the food.
#[verifier::ext_equal]
pub struct GameView {
    pub snake: SnakeView,
    pub food: Point,
}

impl GameView {
    /// The snake is well formed and the food lies on the board.
    pub open spec fn wf(self) -> bool {
        self.snake.wf() && self.food.on_board()
    }

    /// `p` is a cell of the board on which the snake does not lie.
    pub open spec fn vacant(self, p: Point) -> bool {
        p.on_board() && !self.snake.occupies(p)
    }

    /// Some cell of the board does not hold the snake.
    pub open spec fn has_vacant_cell(self) -> bool {
        exists|p: Point| self.vacant(p)
    }

    /// The game once the snake has followed the player's wish and taken its
    /// step; the food has not moved yet.
    pub open spec fn after_move(self, wanted: Direction) -> GameView {
        GameView { snake: steered(self.snake, wanted).ticked(self.food), food: self.food }
    }

    /// The snake ate in the step that the player's wish led to.
    pub open spec fn eats(self, wanted: Direction) -> bool {
        self.after_move(wanted).snake.head == self.food
    }

    /// One step with the wish `wanted` takes the game `self` to `next`: the
    /// snake has turned, unless asked to reverse, and moved; it has grown by
    /// one if its head reached the food; and the food has moved to a cell
    /// without the snake if the snake ate and there is such a cell, else it
    /// is where it was.
    pub open spec fn steps_to(self, wanted: Direction, next: GameView) -> bool {
        let moved = self.after_move(wanted);
        &&& next.snake == moved.snake
        &&& if self.eats(wanted) && moved.has_vacant_cell() {
            moved.vacant(next.food)
        } else {
            next.food == self.food
        }
    }
}

/// The game for one player.
pub struct GameContext {
    snake: Snake,
    food: Point,
    rng: StdRng,
}

impl View for GameContext {
    type V = GameView;

    closed spec fn view(&self) -> GameView {
        GameView { snake: self.snake@, food: self.food }
    }
}

impl GameContext {
    /// The game is well formed.
    pub open spec fn wf(&self) -> bool {
        self@.wf()
    }

    /// A game at its start: the snake as [`Snake::default`] makes it, the
    /// food on `(10, 4)`, the generator seeded with `seed`.
    pub fn new(seed: u64) -> (g: Self)
        ensures
            g.wf(),
            g@.snake == (SnakeView {
                body: seq![Point(2, 3)],
                head: Point(3, 3),
                direction: Direction::Right,
            }),
            g@.food == Point(10, 4),
    {
        GameContext { snake: Snake::default(), food: Point(10, 4), rng: seeded_rng(seed) }
    }

    /// The snake.
    pub fn snake(&self) -> (s: &Snake)
        ensures
            s@ == self@.snake,
    {
        &self.snake
    }

    /// The cell of the food.
    pub fn food(&self) -> (p: Point)
        ensures
            p == self@.food,
    {
        self.food
    }

    /// Moves the food to `p` when `p` is a cell of the board on which the
    /// snake does not lie; otherwise changes nothing. Returns whether the
    /// food moved.
    pub fn place_food(&mut self, p: Point) -> (placed: bool)
        requires
            old(self).wf(),
        ensures
            final(self).wf(),
            placed == old(self)@.vacant(p),
            final(self)@.snake == old(self)@.snake,
            final(self)@.food == if placed {
                p
            } else {
                old(self)@.food
            },
    {
        if p.is_on_board() && !self.snake.occupies(p) {
            self.food = p;
            true
        } else {
            false
        }
    }

    /// The cells of the board on which the snake does not lie, row by row.
    pub fn vacant_cells(&self) -> (cells: Vec<Point>)
        ensures
            forall|a: int| 0 <= a < cells@.len() ==> self@.vacant(#[trigger] cells@[a]),
            forall|p: Point| self@.vacant(p) ==> cells@.contains(p),
            forall|a: int, b: int|
                0 <= a < b < cells@.len() ==> cell_index(cells@[a]) < cell_index(cells@[b]),
    {
        let mut cells: Vec<Point> = Vec::new();
        let mut k: usize = 0;
        while k < CELLS
            invariant
                k <= CELLS,
                forall|a: int| 0 <= a < cells@.len() ==> self@.vacant(#[trigger] cells@[a]),
                forall|a: int| 0 <= a < cells@.len() ==> cell_index(#[trigger] cells@[a]) < k,
                forall|p: Point| self@.vacant(p) && cell_index(p) < k ==> cells@.contains(p),
                forall|a: int, b: int|
                    0 <= a < b < cells@.len() ==> cell_index(cells@[a]) < cell_index(cells@[b]),
            decreases CELLS - k,
        {
            let p = cell_at(k);
            let ghost before = cells@;
            let keep = !self.snake.occupies(p);
            if keep {
                cells.push(p);
            }
            assert forall|q: Point| self@.vacant(q) && cell_index(q) < k + 1 implies cells@.contains(
                q,
            ) by {
                if cell_index(q) < k {
                    let a = choose|a: int| 0 <= a < before.len() && before[a] == q;
                    assert(cells@[a] == q);
                } else {
                    assert(cells@[before.len() as int] == q);
                }
            }
            k += 1;
        }
        cells
    }

    /// Moves the food to a cell drawn uniformly among the cells of the board
    /// on which the snake does not lie. Returns whether there was such a
    /// cell; without one nothing changes.
    pub fn spawn_food(&mut self) -> (placed: bool)
        requires
            old(self).wf(),
        ensures
            final(self).wf(),
            final(self)@.snake == old(self)@.snake,
            placed == old(self)@.has_vacant_cell(),
            placed ==> old(self)@.vacant(final(self)@.food),
            !placed ==> final(self)@.food == old(self)@.food,
    {
        let cells = self.vacant_cells();
        if cells.len() == 0 {
            assert forall|p: Point| !self@.vacant(p) by {
                if self@.vacant(p) {
                    assert(cells@.contains(p));
                }
            }
            return false;
        }
        let pick = random_index(&mut self.rng, cells.len());
        self.food = cells[pick];
        true
    }

    /// One step of the game: the snake turns to `direction` unless that is
    /// the reverse of its heading, and moves one cell, wrapping at the
    /// board's edges. If its head reaches the food it grows by one and the
    /// food moves to a cell drawn among those without the snake (it stays
    /// when there is none); otherwise the snake drops its oldest segment.
    pub fn update(&mut self, direction: Direction)
        requires
            old(self).wf(),
        ensures
            final(self).wf(),
            old(self)@.steps_to(direction, final(self)@),
    {
        self.snake.change_direction(direction);
        self.snake.update_head();
        if self.snake.head() == self.food {
            let _ = self.spawn_food();
        } else {
            self.snake.drop_tail();
        }
    }
}

} // verus!
