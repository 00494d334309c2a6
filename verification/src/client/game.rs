//! The client's copy of the world.

use crate::util::Point;
use std::collections::HashMap;
use std::collections::VecDeque;
use vstd::prelude::*;

pub use crate::util::Direction;

verus! {

/// Whether the client has been told the world yet.
#[derive(Clone, Copy, Debug, PartialEq, Eq, Structural)]
pub enum State {
    Joining,
    Playing,
}

/// What a mirrored snake is: its body from the tail on, its head, and the
/// segment it dropped last.
#[verifier::ext_equal]
pub struct SnakeView {
    pub body: Seq<Point>,
    pub head: Point,
    pub old_tail: Point,
}

impl SnakeView {
    /// The snake after its head moved to `head`: the old head joins the
    /// body, the oldest segment leaves it and is remembered.
    pub open spec fn advanced(self, head: Point) -> SnakeView {
        SnakeView {
            body: self.body.push(self.head).skip(1),
            head,
            old_tail: self.body.push(self.head)[0],
        }
    }

    /// The snake after it ate: the segment it dropped last is back.
    pub open spec fn grown(self) -> SnakeView {
        SnakeView { body: seq![self.old_tail] + self.body, head: self.head, old_tail: self.old_tail }
    }
}

/// A snake as the client mirrors it.
pub struct Snake {
    pub body: VecDeque<Point>,
    pub head: Point,
    pub old_tail: Point,
}

impl View for Snake {
    type V = SnakeView;

    open spec fn view(&self) -> SnakeView {
        SnakeView { body: self.body@, head: self.head, old_tail: self.old_tail }
    }
}

impl Snake {
    /// A snake with the given body (tail first) and head. The body must not
    /// be empty: its first cell is taken as the segment dropped last.
    pub fn new(body: VecDeque<Point>, head: Point) -> (s: Self)
        requires
            body@.len() >= 1,
        ensures
            s@ == (SnakeView { body: body@, head, old_tail: body@[0] }),
    {
        let old_tail = body[0];
        Self { body, head, old_tail }
    }

    /// Moves the head to `head`: the old head joins the body, the oldest
    /// segment leaves it and is remembered.
    pub fn advance(&mut self, head: Point)
        ensures
            final(self)@ == old(self)@.advanced(head),
    {
        self.body.push_back(self.head);
        self.head = head;
        match self.body.pop_front() {
            Some(tail) => {
                self.old_tail = tail;
            },
            None => {},
        }
    }

    /// Puts the segment dropped last back in front of the body.
    pub fn grow(&mut self)
        ensures
            final(self)@ == old(self)@.grown(),
    {
        self.body.push_front(self.old_tail);
    }
}

/// What the client's copy of the world is.
#[verifier::ext_equal]
pub struct MirrorView {
    pub snake_id: u8,
    pub snakes: Map<u8, SnakeView>,
    pub food: Point,
    pub state: State,
}

/// The client's copy of the world: its own id, the snakes by id, the food,
/// and whether it has been told the world yet.
pub struct GameContext {
    pub snake_id: u8,
    pub snakes: HashMap<u8, Snake>,
    pub food: Point,
    pub state: State,
}

impl View for GameContext {
    type V = MirrorView;

    open spec fn view(&self) -> MirrorView {
        MirrorView {
            snake_id: self.snake_id,
            snakes: Map::new(|id: u8| self.snakes@.contains_key(id), |id: u8| self.snakes@[id]@),
            food: self.food,
            state: self.state,
        }
    }
}

impl GameContext {
    /// A copy that has not been told anything: no snakes, the food on
    /// `(0, 0)`, the id `0`.
    pub fn new() -> (g: Self)
        ensures
            g@ == (MirrorView {
                snake_id: 0,
                snakes: Map::<u8, SnakeView>::empty(),
                food: Point(0, 0),
                state: State::Joining,
            }),
    {
        let g = Self {
            snake_id: 0,
            snakes: HashMap::new(),
            food: Point(0, 0),
            state: State::Joining,
        };
        g
    }
}

} // verus!
