//! The simulation: snakes, food, and the tick that moves the world.

use crate::random::{random_index, seeded_rng};
use crate::server::lemmas::{
    lemma_arrival_keeps_food_clear, lemma_removal_keeps_food_clear, lemma_spawn_on_free_cells,
    lemma_tick_keeps_food_clear, lemma_turn_keeps_food_clear,
};
use crate::util::{cell_at, cell_index, left_of, step, step_point, Point, CELLS};
use rand::rngs::StdRng;
use std::collections::HashMap;
use std::collections::VecDeque;
use vstd::prelude::*;

pub use crate::util::Direction;

verus! {

/// Number of times `p` occurs in `cells`.
pub open spec fn count_in(cells: Seq<Point>, p: Point) -> nat
    decreases cells.len(),
{
    if cells.len() == 0 {
        0
    } else {
        count_in(cells.drop_last(), p) + if cells.last() == p {
            1nat
        } else {
            0nat
        }
    }
}

/// What a snake is: its body from the tail to the segment just behind the
/// head, its head, and its heading.
#[verifier::ext_equal]
pub struct SnakeView {
    pub body: Seq<Point>,
    pub head: Point,
    pub direction: Direction,
}

impl SnakeView {
    /// At least one body segment, and every cell on the board.
    pub open spec fn wf(self) -> bool {
        &&& self.body.len() >= 1
        &&& self.head.on_board()
        &&& forall|i: int| 0 <= i < self.body.len() ==> (#[trigger] self.body[i]).on_board()
    }

    /// Every cell of the snake, the head last.
    pub open spec fn cells(self) -> Seq<Point> {
        self.body.push(self.head)
    }

    /// The snake lies on `p`, with its head or with its body.
    pub open spec fn occupies(self, p: Point) -> bool {
        self.head == p || self.body.contains(p)
    }

    /// Number of the snake's cells, head included, that equal `p`.
    pub open spec fn count(self, p: Point) -> nat {
        count_in(self.cells(), p)
    }

    /// The snake after its head has stepped: the old head joins the body.
    pub open spec fn moved(self) -> SnakeView {
        SnakeView {
            body: self.body.push(self.head),
            head: step(self.head, self.direction),
            direction: self.direction,
        }
    }

    /// The snake without its oldest body segment.
    pub open spec fn shrunk(self) -> SnakeView {
        SnakeView { body: self.body.skip(1), head: self.head, direction: self.direction }
    }

    /// The snake after one tick with the food at `food`: it steps, and keeps
    /// its oldest segment only when the step took its head onto the food.
    pub open spec fn ticked(self, food: Point) -> SnakeView {
        if self.moved().head == food {
            self.moved()
        } else {
            self.moved().shrunk()
        }
    }

    /// The snake with another heading.
    pub open spec fn turned(self, direction: Direction) -> SnakeView {
        SnakeView { body: self.body, head: self.head, direction }
    }
}

/// A snake of the simulation.
pub struct Snake {
    body: VecDeque<Point>,
    head: Point,
    direction: Direction,
}

impl View for Snake {
    type V = SnakeView;

    closed spec fn view(&self) -> SnakeView {
        SnakeView { body: self.body@, head: self.head, direction: self.direction }
    }
}

impl Snake {
    /// Builds a snake from its body (tail first), head and heading. `None`
    /// when the body is empty or a cell lies off the board.
    pub fn new(body: Vec<Point>, head: Point, direction: Direction) -> (r: Option<Snake>)
        ensures
            r is Some <==> (SnakeView { body: body@, head, direction }).wf(),
            r is Some ==> r->0@ == (SnakeView { body: body@, head, direction }),
    {
        if body.len() == 0 || !head.is_on_board() {
            return None;
        }
        let mut deque: VecDeque<Point> = VecDeque::new();
        let mut i: usize = 0;
        while i < body.len()
            invariant
                i <= body.len(),
                deque@ == body@.subrange(0, i as int),
                forall|k: int| 0 <= k < i ==> (#[trigger] body@[k]).on_board(),
            decreases body.len() - i,
        {
            let p = body[i];
            if !p.is_on_board() {
                return None;
            }
            deque.push_back(p);
            i += 1;
        }
        Some(Snake { body: deque, head, direction })
    }

    /// The cell of the head.
    pub fn head(&self) -> (p: Point)
        ensures
            p == self@.head,
    {
        self.head
    }

    /// The current heading.
    pub fn direction(&self) -> (d: Direction)
        ensures
            d == self@.direction,
    {
        self.direction
    }

    /// The body cells, from the tail to the segment behind the head.
    pub fn body(&self) -> (cells: Vec<Point>)
        ensures
            cells@ == self@.body,
    {
        let mut cells: Vec<Point> = Vec::new();
        let mut i: usize = 0;
        while i < self.body.len()
            invariant
                i <= self.body@.len(),
                cells@ == self.body@.subrange(0, i as int),
            decreases self.body@.len() - i,
        {
            cells.push(self.body[i]);
            i += 1;
        }
        cells
    }

    /// Tells whether the snake lies on `p`.
    pub fn occupies(&self, p: Point) -> (r: bool)
        ensures
            r == self@.occupies(p),
    {
        if self.head == p {
            return true;
        }
        let mut i: usize = 0;
        while i < self.body.len()
            invariant
                i <= self.body@.len(),
                forall|k: int| 0 <= k < i ==> self.body@[k] != p,
            decreases self.body@.len() - i,
        {
            if self.body[i] == p {
                return true;
            }
            i += 1;
        }
        false
    }

    /// Steps the head one cell in the current heading, wrapping at the
    /// board's edges; the old head becomes the newest body segment.
    pub fn update_head(&mut self)
        requires
            old(self)@.wf(),
        ensures
            final(self)@ == old(self)@.moved(),
            final(self)@.wf(),
    {
        let next_head = step_point(self.head, self.direction);
        self.body.push_back(self.head);
        self.head = next_head;
    }

    /// Sets the heading, whatever it was.
    pub fn change_direction(&mut self, direction: Direction)
        ensures
            final(self)@ == old(self)@.turned(direction),
    {
        self.direction = direction;
    }

    /// Number of the snake's cells that equal `p`, counted up to two.
    pub fn count_capped(&self, p: Point) -> (n: usize)
        ensures
            n == if self@.count(p) < 2 {
                self@.count(p)
            } else {
                2
            },
    {
        let mut n: usize = 0;
        let mut i: usize = 0;
        while i < self.body.len()
            invariant
                i <= self.body@.len(),
                n <= 2,
                n == if count_in(self.body@.subrange(0, i as int), p) < 2 {
                    count_in(self.body@.subrange(0, i as int), p)
                } else {
                    2
                },
            decreases self.body@.len() - i,
        {
            assert(self.body@.subrange(0, i + 1).drop_last() =~= self.body@.subrange(0, i as int));
            if self.body[i] == p && n < 2 {
                n += 1;
            }
            i += 1;
        }
        assert(self.body@.subrange(0, i as int) =~= self.body@);
        assert(self@.cells().drop_last() =~= self.body@);
        if self.head == p && n < 2 {
            n += 1;
        }
        n
    }

    /// Drops the oldest body segment.
    fn drop_tail(&mut self)
        requires
            old(self)@.body.len() >= 1,
        ensures
            final(self)@ == old(self)@.shrunk(),
    {
        let _ = self.body.pop_front();
    }
}

/// What the world is: the snakes by connection id, and the food.
#[verifier::ext_equal]
pub struct WorldView {
    pub snakes: Map<u8, SnakeView>,
    pub food: Point,
}

impl WorldView {
    /// Ids lie in `1..=254`, every snake is well formed, the food lies on
    /// the board.
    pub open spec fn wf(self) -> bool {
        &&& self.food.on_board()
        &&& forall|id: u8| #[trigger]
            self.snakes.contains_key(id) ==> 1 <= id <= 254 && self.snakes[id].wf()
    }

    /// Some snake lies on `p`.
    pub open spec fn occupied(self, p: Point) -> bool {
        exists|id: u8| #[trigger] self.snakes.contains_key(id) && self.snakes[id].occupies(p)
    }

    /// `p` is a cell of the board on which no snake lies.
    pub open spec fn vacant(self, p: Point) -> bool {
        p.on_board() && !self.occupied(p)
    }

    /// `p` is a cell of the board that holds neither a snake nor the food.
    pub open spec fn free(self, p: Point) -> bool {
        self.vacant(p) && p != self.food
    }

    /// A new snake may be placed with its head on `head`: that cell and the
    /// one to its left are free.
    pub open spec fn can_spawn_at(self, head: Point) -> bool {
        self.free(head) && self.free(left_of(head))
    }

    /// The snake that spawning at `head` creates: one body segment to the
    /// left of the head, heading right.
    pub open spec fn spawned(head: Point) -> SnakeView {
        SnakeView { body: seq![left_of(head)], head, direction: Direction::Right }
    }

    /// No snake lies on the food.
    pub open spec fn food_clear(self) -> bool {
        !self.occupied(self.food)
    }

    /// The world with the snake `s` under `id`.
    pub open spec fn with_snake(self, id: u8, s: SnakeView) -> WorldView {
        WorldView { snakes: self.snakes.insert(id, s), food: self.food }
    }

    /// The world without the snake `id`.
    pub open spec fn without_snake(self, id: u8) -> WorldView {
        WorldView { snakes: self.snakes.remove(id), food: self.food }
    }

    /// The world with the food on `p`.
    pub open spec fn with_food(self, p: Point) -> WorldView {
        WorldView { snakes: self.snakes, food: p }
    }
}

impl WorldView {
    /// Number of cells equal to `p` among the snakes with an id below `n`.
    pub open spec fn count_below(self, n: nat, p: Point) -> nat
        decreases n,
    {
        if n == 0 {
            0
        } else {
            self.count_below((n - 1) as nat, p) + if self.snakes.contains_key((n - 1) as u8) {
                self.snakes[(n - 1) as u8].count(p)
            } else {
                0nat
            }
        }
    }

    /// Number of times `p` occurs among all cells of all snakes, heads
    /// included.
    pub open spec fn count(self, p: Point) -> nat {
        self.count_below(256, p)
    }

    /// The head of the snake `id` lies on a cell that occurs more than once
    /// among all cells of all snakes.
    pub open spec fn collides(self, id: u8) -> bool {
        self.count(self.snakes[id].head) > 1
    }

    /// The world once every snake has taken its step of the tick; the food
    /// has not moved yet.
    pub open spec fn after_move(self) -> WorldView {
        WorldView {
            snakes: self.snakes.map_values(|s: SnakeView| s.ticked(self.food)),
            food: self.food,
        }
    }

    /// `e` names the snake that ate: the one with the greatest id among those
    /// whose head lies on the food, or none when no head does.
    pub open spec fn is_eater(self, e: Option<u8>) -> bool {
        match e {
            Some(id) => {
                &&& self.snakes.contains_key(id)
                &&& self.snakes[id].head == self.food
                &&& forall|j: u8|
                    j > id && #[trigger] self.snakes.contains_key(j) ==> self.snakes[j].head
                        != self.food
            },
            None => forall|j: u8| #[trigger]
                self.snakes.contains_key(j) ==> self.snakes[j].head != self.food,
        }
    }

    /// `killed` lists, in ascending order and once each, exactly the ids of
    /// the snakes that collide.
    pub open spec fn is_killed_list(self, killed: Seq<u8>) -> bool {
        &&& forall|i: int, j: int| 0 <= i < j < killed.len() ==> killed[i] < killed[j]
        &&& forall|id: u8|
            killed.contains(id) <==> self.snakes.contains_key(id) && self.collides(id)
    }

    /// `killed` reports the collisions: nothing when no snake collides, else
    /// the list of those that do.
    pub open spec fn is_killed_report(self, killed: Option<Vec<u8>>) -> bool {
        match killed {
            None => forall|id: u8| #[trigger] self.snakes.contains_key(id) ==> !self.collides(id),
            Some(list) => list@.len() > 0 && self.is_killed_list(list@),
        }
    }

    /// Some cell of the board holds no snake.
    pub open spec fn has_vacant_cell(self) -> bool {
        exists|p: Point| self.vacant(p)
    }

    /// One tick takes the world `self` to the world `next` and reports
    /// `eater` and `killed`: every snake has moved; the eater is the snake
    /// whose head reached the food; the killed are the snakes that collide
    /// after the move; and the food has moved to a cell without a snake if a
    /// snake ate and there is such a cell, else it is where it was.
    pub open spec fn ticks_to(
        self,
        next: WorldView,
        eater: Option<u8>,
        killed: Option<Vec<u8>>,
    ) -> bool {
        let moved = self.after_move();
        &&& next.snakes == moved.snakes
        &&& moved.is_eater(eater)
        &&& moved.is_killed_report(killed)
        &&& if eater is Some && moved.has_vacant_cell() {
            moved.vacant(next.food)
        } else {
            next.food == self.food
        }
    }
}

/// Why the world refused a request.
#[derive(Clone, Copy, Debug, PartialEq, Eq, Structural)]
pub enum GameError {
    /// The id is not in `1..=254`.
    InvalidId,
    /// No cell of the board is available.
    NoSpace,
    /// A cell asked for is off the board or already taken.
    NotFree,
}

/// The authoritative world: snakes by connection id, the food, and the
/// generator that places both.
pub struct GameContext {
    snakes: HashMap<u8, Snake>,
    food: Point,
    rng: StdRng,
}

impl View for GameContext {
    type V = WorldView;

    closed spec fn view(&self) -> WorldView {
        WorldView {
            snakes: Map::new(|id: u8| self.snakes@.contains_key(id), |id: u8| self.snakes@[id]@),
            food: self.food,
        }
    }
}

impl GameContext {
    /// The world is well formed.
    pub open spec fn wf(&self) -> bool {
        self@.wf()
    }

    /// An empty world with the food on `(10, 4)`, its generator seeded with
    /// `seed`.
    pub fn new(seed: u64) -> (g: Self)
        ensures
            g@.snakes == Map::<u8, SnakeView>::empty(),
            g@.food == Point(10, 4),
            g.wf(),
            g@.food_clear(),
    {
        let g = GameContext { snakes: HashMap::new(), food: Point(10, 4), rng: seeded_rng(seed) };
        g
    }

    /// The cell of the food.
    pub fn food(&self) -> (p: Point)
        ensures
            p == self@.food,
    {
        self.food
    }

    /// The snake under `id`, if there is one.
    pub fn snake(&self, id: u8) -> (r: Option<&Snake>)
        ensures
            r is Some <==> self@.snakes.contains_key(id),
            r is Some ==> r->0@ == self@.snakes[id],
    {
        self.snakes.get(&id)
    }

    /// Number of snakes.
    pub fn len(&self) -> (n: usize)
        ensures
            n == self@.snakes.len(),
    {
        proof {
            self.lemma_view_dom();
        }
        self.snakes.len()
    }

    /// The view has the keys of the underlying table.
    proof fn lemma_view_dom(&self)
        ensures
            self@.snakes.dom() == self.snakes@.dom(),
    {
        assert(self@.snakes.dom() =~= self.snakes@.dom());
    }

    /// The ids of the snakes, in ascending order.
    pub fn snake_ids(&self) -> (ids: Vec<u8>)
        ensures
            forall|i: int, j: int| 0 <= i < j < ids@.len() ==> ids@[i] < ids@[j],
            forall|id: u8| ids@.contains(id) <==> self@.snakes.contains_key(id),
    {
        let mut ids: Vec<u8> = Vec::new();
        let mut i: usize = 0;
        while i < 256
            invariant
                i <= 256,
                forall|a: int, b: int| 0 <= a < b < ids@.len() ==> ids@[a] < ids@[b],
                forall|a: int| 0 <= a < ids@.len() ==> ids@[a] < i,
                forall|id: u8| ids@.contains(id) <==> id < i && self@.snakes.contains_key(id),
            decreases 256 - i,
        {
            let id = i as u8;
            if self.snakes.contains_key(&id) {
                let ghost before = ids@;
                ids.push(id);
                assert forall|x: u8| ids@.contains(x) <==> x < i + 1 && self@.snakes.contains_key(
                    x,
                ) by {
                    if before.contains(x) {
                        let k = choose|k: int| 0 <= k < before.len() && before[k] == x;
                        assert(ids@[k] == x);
                    }
                    if x == id {
                        assert(ids@[before.len() as int] == x);
                    }
                }
            }
            i += 1;
        }
        ids
    }

    /// Tells whether some snake lies on `p`.
    pub fn is_occupied(&self, p: Point) -> (r: bool)
        ensures
            r == self@.occupied(p),
    {
        let mut i: usize = 0;
        while i < 256
            invariant
                i <= 256,
                forall|id: u8|
                    id < i && #[trigger] self@.snakes.contains_key(id) ==> !self@.snakes[id].occupies(
                        p,
                    ),
            decreases 256 - i,
        {
            let id = i as u8;
            match self.snakes.get(&id) {
                Some(snake) => {
                    if snake.occupies(p) {
                        assert(self@.snakes.contains_key(id));
                        return true;
                    }
                },
                None => {},
            }
            i += 1;
        }
        false
    }

    /// Tells whether `p` is a cell of the board that holds neither a snake
    /// nor the food.
    pub fn is_free(&self, p: Point) -> (r: bool)
        ensures
            r == self@.free(p),
    {
        p.is_on_board() && !(p == self.food) && !self.is_occupied(p)
    }

    /// Puts `snake` into the world under `id`, replacing a snake that was
    /// there. Refused for an id outside `1..=254`.
    pub fn put_snake(&mut self, id: u8, snake: Snake) -> (r: Result<(), GameError>)
        requires
            old(self).wf(),
            snake@.wf(),
        ensures
            final(self).wf(),
            r is Ok <==> 1 <= id <= 254,
            r is Ok ==> final(self)@ == old(self)@.with_snake(id, snake@),
            r is Err ==> r == Err::<(), GameError>(GameError::InvalidId) && final(self)@ == old(self)@,
            old(self)@.food_clear() && !snake@.occupies(old(self)@.food)
                ==> final(self)@.food_clear(),
    {
        if id == 0 || id == 255 {
            return Err(GameError::InvalidId);
        }
        proof {
            if old(self)@.food_clear() && !snake@.occupies(old(self)@.food) {
                lemma_arrival_keeps_food_clear(old(self)@, id, snake@);
            }
        }
        self.snakes.insert(id, snake);
        assert(self@.snakes =~= old(self)@.snakes.insert(id, snake@));
        Ok(())
    }

    /// Moves the food to `p` when `p` is a cell of the board on which no
    /// snake lies; otherwise refuses and changes nothing.
    pub fn place_food(&mut self, p: Point) -> (r: Result<(), GameError>)
        requires
            old(self).wf(),
        ensures
            final(self).wf(),
            r is Ok <==> old(self)@.vacant(p),
            r is Ok ==> final(self)@ == old(self)@.with_food(p) && final(self)@.food_clear(),
            r is Err ==> r == Err::<(), GameError>(GameError::NotFree) && final(self)@ == old(self)@,
    {
        if !p.is_on_board() || self.is_occupied(p) {
            return Err(GameError::NotFree);
        }
        self.food = p;
        assert(self@.snakes =~= old(self)@.snakes);
        Ok(())
    }

    /// Removes the snake `id`; a no-op when there is none.
    pub fn kill_snake(&mut self, snake_id: u8)
        requires
            old(self).wf(),
        ensures
            final(self).wf(),
            final(self)@ == old(self)@.without_snake(snake_id),
            old(self)@.food_clear() ==> final(self)@.food_clear(),
    {
        let _ = self.snakes.remove(&snake_id);
        assert(self@.snakes =~= old(self)@.snakes.remove(snake_id));
        proof {
            if old(self)@.food_clear() {
                lemma_removal_keeps_food_clear(old(self)@, snake_id);
            }
        }
    }

    /// Sets the heading of the snake `id`, whatever it was. Returns whether
    /// there is such a snake; without one nothing changes.
    pub fn change_direction(&mut self, snake_id: u8, direction: Direction) -> (found: bool)
        requires
            old(self).wf(),
        ensures
            final(self).wf(),
            found == old(self)@.snakes.contains_key(snake_id),
            found ==> final(self)@ == old(self)@.with_snake(
                snake_id,
                old(self)@.snakes[snake_id].turned(direction),
            ),
            !found ==> final(self)@ == old(self)@,
            old(self)@.food_clear() ==> final(self)@.food_clear(),
    {
        proof {
            if old(self)@.food_clear() && old(self)@.snakes.contains_key(snake_id) {
                lemma_turn_keeps_food_clear(old(self)@, snake_id, direction);
            }
        }
        match self.snakes.remove(&snake_id) {
            Some(mut snake) => {
                snake.change_direction(direction);
                self.snakes.insert(snake_id, snake);
                true
            },
            None => {
                assert(self@.snakes =~= old(self)@.snakes);
                false
            },
        }
    }
}

impl GameContext {
    /// Number of times `p` occurs among all cells of all snakes, counted up
    /// to two.
    pub fn count_capped(&self, p: Point) -> (n: usize)
        ensures
            n == if self@.count(p) < 2 {
                self@.count(p)
            } else {
                2
            },
    {
        let mut n: usize = 0;
        let mut i: usize = 0;
        while i < 256
            invariant
                i <= 256,
                n <= 2,
                n == if self@.count_below(i as nat, p) < 2 {
                    self@.count_below(i as nat, p)
                } else {
                    2
                },
            decreases 256 - i,
        {
            let id = i as u8;
            match self.snakes.get(&id) {
                Some(snake) => {
                    let c = snake.count_capped(p);
                    n = if n + c < 2 {
                        n + c
                    } else {
                        2
                    };
                },
                None => {},
            }
            i += 1;
        }
        n
    }

    /// The ids of the snakes whose head lies on a cell that occurs more than
    /// once among all cells of all snakes, in ascending order.
    pub fn collisions(&self) -> (killed: Vec<u8>)
        ensures
            self@.is_killed_list(killed@),
    {
        let mut killed: Vec<u8> = Vec::new();
        let mut i: usize = 0;
        while i < 256
            invariant
                i <= 256,
                forall|a: int, b: int| 0 <= a < b < killed@.len() ==> killed@[a] < killed@[b],
                forall|a: int| 0 <= a < killed@.len() ==> killed@[a] < i,
                forall|id: u8|
                    killed@.contains(id) <==> id < i && self@.snakes.contains_key(id)
                        && self@.collides(id),
            decreases 256 - i,
        {
            let id = i as u8;
            let ghost before = killed@;
            let hit = match self.snakes.get(&id) {
                Some(snake) => self.count_capped(snake.head()) > 1,
                None => false,
            };
            if hit {
                killed.push(id);
            }
            assert forall|x: u8|
                killed@.contains(x) <==> x < i + 1 && self@.snakes.contains_key(x)
                    && self@.collides(x) by {
                if before.contains(x) {
                    let k = choose|k: int| 0 <= k < before.len() && before[k] == x;
                    assert(killed@[k] == x);
                }
                if x == id && hit {
                    assert(killed@[before.len() as int] == x);
                }
            }
            i += 1;
        }
        killed
    }

    /// Moves every snake by one step: the head advances, and the oldest
    /// segment is dropped unless the head came to lie on the food. Returns
    /// the snake that ate, if any.
    pub fn move_snakes(&mut self) -> (eater: Option<u8>)
        requires
            old(self).wf(),
        ensures
            final(self).wf(),
            final(self)@ == old(self)@.after_move(),
            final(self)@.is_eater(eater),
    {
        let ghost before = self@;
        let food = self.food;
        let mut eater: Option<u8> = None;
        let mut i: usize = 0;
        while i < 256
            invariant
                i <= 256,
                before == old(self)@,
                before.wf(),
                self.food == food,
                food == before.food,
                forall|id: u8| self@.snakes.contains_key(id) <==> before.snakes.contains_key(id),
                forall|id: u8|
                    id < i && #[trigger] before.snakes.contains_key(id) ==> self@.snakes[id]
                        == before.snakes[id].ticked(food),
                forall|id: u8|
                    id >= i && #[trigger] before.snakes.contains_key(id) ==> self@.snakes[id]
                        == before.snakes[id],
                match eater {
                    Some(e) => {
                        &&& e < i
                        &&& before.snakes.contains_key(e)
                        &&& before.snakes[e].ticked(food).head == food
                        &&& forall|j: u8|
                            e < j < i && #[trigger] before.snakes.contains_key(j)
                                ==> before.snakes[j].ticked(food).head != food
                    },
                    None => forall|j: u8|
                        j < i && #[trigger] before.snakes.contains_key(j) ==> before.snakes[j].ticked(
                            food,
                        ).head != food,
                },
            decreases 256 - i,
        {
            let id = i as u8;
            let ghost table = self.snakes@;
            match self.snakes.remove(&id) {
                Some(mut snake) => {
                    assert(before.snakes.contains_key(id));
                    assert(snake@ == before.snakes[id]);
                    snake.update_head();
                    if snake.head() == food {
                        eater = Some(id);
                    } else {
                        snake.drop_tail();
                    }
                    assert(snake@ == before.snakes[id].ticked(food));
                    self.snakes.insert(id, snake);
                    assert(self.snakes@ == table.insert(id, snake));
                },
                None => {
                    assert(self.snakes@ == table);
                },
            }
            i += 1;
        }
        assert(self@.snakes =~= before.after_move().snakes);
        assert forall|id: u8| #[trigger] self@.snakes.contains_key(id) implies 1 <= id <= 254
            && self@.snakes[id].wf() by {
            assert(before.snakes.contains_key(id));
        }
        eater
    }
}

impl GameContext {
    /// The cells of the board on which no snake lies, row by row.
    pub fn vacant_cells(&self) -> (cells: Vec<Point>)
        ensures
            forall|a: int| 0 <= a < cells@.len() ==> self@.vacant(#[trigger] cells@[a]),
            forall|p: Point| self@.vacant(p) ==> cells@.contains(p),
            forall|a: int, b: int|
                0 <= a < b < cells@.len() ==> cell_index(cells@[a]) < cell_index(cells@[b]),
    {
        let mut cells: Vec<Point> = Vec::new();
        let mut k: usize = 0;
        while k < CELLS
            invariant
                k <= CELLS,
                forall|a: int| 0 <= a < cells@.len() ==> self@.vacant(#[trigger] cells@[a]),
                forall|a: int| 0 <= a < cells@.len() ==> cell_index(#[trigger] cells@[a]) < k,
                forall|p: Point| self@.vacant(p) && cell_index(p) < k ==> cells@.contains(p),
                forall|a: int, b: int|
                    0 <= a < b < cells@.len() ==> cell_index(cells@[a]) < cell_index(cells@[b]),
            decreases CELLS - k,
        {
            let p = cell_at(k);
            let ghost before = cells@;
            let keep = !self.is_occupied(p);
            if keep {
                cells.push(p);
            }
            assert forall|q: Point| self@.vacant(q) && cell_index(q) < k + 1 implies cells@.contains(
                q,
            ) by {
                if cell_index(q) < k {
                    let a = choose|a: int| 0 <= a < before.len() && before[a] == q;
                    assert(cells@[a] == q);
                } else {
                    assert(cells@[before.len() as int] == q);
                }
            }
            k += 1;
        }
        cells
    }

    /// The cells of the board on which a new snake may be placed with its
    /// head, row by row.
    pub fn spawn_cells(&self) -> (cells: Vec<Point>)
        ensures
            forall|a: int| 0 <= a < cells@.len() ==> self@.can_spawn_at(#[trigger] cells@[a]),
            forall|p: Point| self@.can_spawn_at(p) ==> cells@.contains(p),
            forall|a: int, b: int|
                0 <= a < b < cells@.len() ==> cell_index(cells@[a]) < cell_index(cells@[b]),
    {
        let mut cells: Vec<Point> = Vec::new();
        let mut k: usize = 0;
        while k < CELLS
            invariant
                k <= CELLS,
                forall|a: int| 0 <= a < cells@.len() ==> self@.can_spawn_at(#[trigger] cells@[a]),
                forall|a: int| 0 <= a < cells@.len() ==> cell_index(#[trigger] cells@[a]) < k,
                forall|p: Point| self@.can_spawn_at(p) && cell_index(p) < k ==> cells@.contains(p),
                forall|a: int, b: int|
                    0 <= a < b < cells@.len() ==> cell_index(cells@[a]) < cell_index(cells@[b]),
            decreases CELLS - k,
        {
            let p = cell_at(k);
            let ghost before = cells@;
            let keep = self.is_free(p) && self.is_free(step_point(p, Direction::Left));
            if keep {
                cells.push(p);
            }
            assert forall|q: Point|
                self@.can_spawn_at(q) && cell_index(q) < k + 1 implies cells@.contains(q) by {
                if cell_index(q) < k {
                    let a = choose|a: int| 0 <= a < before.len() && before[a] == q;
                    assert(cells@[a] == q);
                } else {
                    assert(cells@[before.len() as int] == q);
                }
            }
            k += 1;
        }
        cells
    }

    /// Places a new snake under `id` with its head on `head`, one body
    /// segment to the left of it, heading right. Refused when the id is
    /// outside `1..=254`, and when one of the two cells is off the board or
    /// holds a snake or the food. A snake already under `id` is replaced.
    pub fn place_snake(&mut self, snake_id: u8, head: Point) -> (r: Result<(), GameError>)
        requires
            old(self).wf(),
        ensures
            final(self).wf(),
            old(self)@.food_clear() ==> final(self)@.food_clear(),
            match r {
                Ok(()) => {
                    &&& 1 <= snake_id <= 254
                    &&& old(self)@.can_spawn_at(head)
                    &&& final(self)@ == old(self)@.with_snake(snake_id, WorldView::spawned(head))
                },
                Err(GameError::InvalidId) => !(1 <= snake_id <= 254) && final(self)@ == old(self)@,
                Err(GameError::NotFree) => {
                    &&& 1 <= snake_id <= 254
                    &&& !old(self)@.can_spawn_at(head)
                    &&& final(self)@ == old(self)@
                },
                Err(GameError::NoSpace) => false,
            },
    {
        if snake_id == 0 || snake_id == 255 {
            return Err(GameError::InvalidId);
        }
        if !self.is_free(head) {
            return Err(GameError::NotFree);
        }
        let tail = step_point(head, Direction::Left);
        if !self.is_free(tail) {
            return Err(GameError::NotFree);
        }
        let mut body: VecDeque<Point> = VecDeque::new();
        body.push_back(tail);
        let snake = Snake { body, head, direction: Direction::Right };
        proof {
            lemma_spawn_on_free_cells(old(self)@, snake_id, head);
        }
        self.snakes.insert(snake_id, snake);
        assert(self@.snakes =~= old(self)@.snakes.insert(snake_id, WorldView::spawned(head)));
        Ok(())
    }

    /// Places a new snake under `id` on a cell drawn uniformly among those
    /// where it may be placed: head on the cell, one body segment to its
    /// left, heading right, neither cell holding a snake or the food. Fails
    /// without changing the world when the id is outside `1..=254` or when
    /// no such cell exists.
    pub fn spawn_snake(&mut self, snake_id: u8) -> (r: Result<(), GameError>)
        requires
            old(self).wf(),
        ensures
            final(self).wf(),
            old(self)@.food_clear() ==> final(self)@.food_clear(),
            match r {
                Ok(()) => {
                    &&& 1 <= snake_id <= 254
                    &&& exists|head: Point| #[trigger]
                        old(self)@.can_spawn_at(head) && final(self)@ == old(self)@.with_snake(
                            snake_id,
                            WorldView::spawned(head),
                        )
                },
                Err(GameError::InvalidId) => !(1 <= snake_id <= 254) && final(self)@ == old(self)@,
                Err(GameError::NoSpace) => {
                    &&& 1 <= snake_id <= 254
                    &&& forall|head: Point| !old(self)@.can_spawn_at(head)
                    &&& final(self)@ == old(self)@
                },
                Err(GameError::NotFree) => false,
            },
    {
        if snake_id == 0 || snake_id == 255 {
            return Err(GameError::InvalidId);
        }
        let cells = self.spawn_cells();
        if cells.len() == 0 {
            assert forall|head: Point| !self@.can_spawn_at(head) by {
                if self@.can_spawn_at(head) {
                    assert(cells@.contains(head));
                }
            }
            return Err(GameError::NoSpace);
        }
        let pick = random_index(&mut self.rng, cells.len());
        let head = cells[pick];
        assert(self@.snakes =~= old(self)@.snakes);
        self.place_snake(snake_id, head)
    }

    /// Moves the food to a cell drawn uniformly among the cells of the board
    /// on which no snake lies. Fails without changing the world when every
    /// cell holds a snake.
    pub fn spawn_food(&mut self) -> (r: Result<(), GameError>)
        requires
            old(self).wf(),
        ensures
            final(self).wf(),
            final(self)@.snakes == old(self)@.snakes,
            match r {
                Ok(()) => old(self)@.vacant(final(self)@.food),
                Err(GameError::NoSpace) => {
                    &&& forall|p: Point| !old(self)@.vacant(p)
                    &&& final(self)@ == old(self)@
                },
                Err(_) => false,
            },
    {
        let cells = self.vacant_cells();
        if cells.len() == 0 {
            assert forall|p: Point| !self@.vacant(p) by {
                if self@.vacant(p) {
                    assert(cells@.contains(p));
                }
            }
            return Err(GameError::NoSpace);
        }
        let pick = random_index(&mut self.rng, cells.len());
        self.food = cells[pick];
        assert(self@.snakes =~= old(self)@.snakes);
        Ok(())
    }

    /// One tick of the simulation. Every snake steps in its heading, wrapping
    /// at the board's edges; a snake whose head reaches the food keeps its
    /// oldest segment and so grows by one, every other snake drops it. Then
    /// the snakes whose head shares its cell with any other cell of any snake
    /// are reported as killed, in ascending order of id, and if a snake ate,
    /// the food moves to a cell drawn among those on which no snake lies; it
    /// stays where it was when there is no such cell. Returns the snake that
    /// ate, if any, and the killed snakes, if any.
    pub fn update(&mut self) -> (r: (Option<u8>, Option<Vec<u8>>))
        requires
            old(self).wf(),
        ensures
            final(self).wf(),
            old(self)@.ticks_to(final(self)@, r.0, r.1),
            old(self)@.snakes.len() == 0 ==> final(self)@ == old(self)@ && r.0 is None && r.1 is None,
            old(self)@.food_clear() && (r.0 is None || old(self)@.after_move().has_vacant_cell())
                ==> final(self)@.food_clear(),
    {
        if self.len() == 0 {
            proof {
                self.lemma_view_dom();
                self@.snakes.dom().lemma_len0_is_empty();
                assert(self@.snakes =~= self@.after_move().snakes);
            }
            return (None, None);
        }
        let eater = self.move_snakes();
        let ghost moved = self@;
        let killed = self.collisions();
        if eater.is_some() {
            let _ = self.spawn_food();
        } else {
            proof {
                if old(self)@.food_clear() {
                    lemma_tick_keeps_food_clear(old(self)@);
                }
            }
        }
        let report = if killed.len() == 0 {
            assert forall|id: u8| #[trigger] moved.snakes.contains_key(id) implies !moved.collides(
                id,
            ) by {
                if moved.collides(id) {
                    assert(killed@.contains(id));
                }
            }
            None
        } else {
            Some(killed)
        };
        (eater, report)
    }
}

} // verus!
