//! What is to be drawn: coloured tiles, in drawing order.

use crate::client::game::{GameContext as Mirror, MirrorView};
use crate::game::{GameContext as Solo, GameView};
use crate::util::Point;
use vstd::prelude::*;

verus! {

/// Width of the window in pixels.
pub const WINDOW_WIDTH: u32 = 800;

/// Height of the window in pixels.
pub const WINDOW_HEIGHT: u32 = 600;

/// Edge of a tile in pixels.
pub const SCALE: u32 = 10;

/// What a tile shows.
#[derive(Clone, Copy, Debug, PartialEq, Eq, Structural)]
pub enum Paint {
    /// A body segment of the player's own snake.
    Body,
    /// The head of the player's own snake.
    Head,
    /// A body segment of another snake.
    EnemyBody,
    /// The head of another snake.
    EnemyHead,
    /// The food.
    Food,
}

/// One cell to be drawn.
#[derive(Clone, Copy, Debug, PartialEq, Eq, Structural)]
pub struct Tile {
    pub cell: Point,
    pub paint: Paint,
}

/// The paint of a body segment.
pub open spec fn body_paint(own: bool) -> Paint {
    if own {
        Paint::Body
    } else {
        Paint::EnemyBody
    }
}

/// The paint of a head.
pub open spec fn head_paint(own: bool) -> Paint {
    if own {
        Paint::Head
    } else {
        Paint::EnemyHead
    }
}

/// The tiles of one snake: its body from the tail on, then its head.
pub open spec fn snake_tiles(body: Seq<Point>, head: Point, own: bool) -> Seq<Tile> {
    Seq::new(body.len(), |i: int| Tile { cell: body[i], paint: body_paint(own) }).push(
        Tile { cell: head, paint: head_paint(own) },
    )
}

/// The tiles of the snakes with an id below `n`, in ascending order of id.
pub open spec fn tiles_below(m: MirrorView, n: nat) -> Seq<Tile>
    decreases n,
{
    if n == 0 {
        Seq::<Tile>::empty()
    } else {
        let id = (n - 1) as u8;
        if m.snakes.contains_key(id) {
            tiles_below(m, (n - 1) as nat) + snake_tiles(
                m.snakes[id].body,
                m.snakes[id].head,
                id == m.snake_id,
            )
        } else {
            tiles_below(m, (n - 1) as nat)
        }
    }
}

/// What a client draws: every snake in ascending order of id, the own one
/// in its own paints, then the food.
pub open spec fn mirror_scene_of(m: MirrorView) -> Seq<Tile> {
    tiles_below(m, 256).push(Tile { cell: m.food, paint: Paint::Food })
}

/// What the game for one player draws: the snake, then the food.
pub open spec fn solo_scene_of(g: GameView) -> Seq<Tile> {
    snake_tiles(g.snake.body, g.snake.head, true).push(Tile { cell: g.food, paint: Paint::Food })
}

/// The pixel at the upper left corner of the tile of a cell; `None` when it
/// lies beyond what a coordinate can hold.
pub fn pixel_origin(cell: Point) -> (r: Option<(i32, i32)>)
    ensures
        match r {
            Some((x, y)) => x == cell.0 * SCALE && y == cell.1 * SCALE,
            None => !(i32::MIN <= cell.0 * SCALE <= i32::MAX && i32::MIN <= cell.1 * SCALE
                <= i32::MAX),
        },
{
    let x = cell.0.checked_mul(10);
    let y = cell.1.checked_mul(10);
    match (x, y) {
        (Some(x), Some(y)) => Some((x, y)),
        _ => None,
    }
}

/// Appends the tiles of one snake.
fn push_snake(tiles: &mut Vec<Tile>, body: &Vec<Point>, head: Point, own: bool)
    ensures
        final(tiles)@ == old(tiles)@ + snake_tiles(body@, head, own),
{
    let body_paint = if own {
        Paint::Body
    } else {
        Paint::EnemyBody
    };
    let head_paint = if own {
        Paint::Head
    } else {
        Paint::EnemyHead
    };
    let mut i: usize = 0;
    while i < body.len()
        invariant
            i <= body@.len(),
            body_paint == self::body_paint(own),
            tiles@.len() == old(tiles)@.len() + i,
            forall|k: int| 0 <= k < old(tiles)@.len() ==> tiles@[k] == old(tiles)@[k],
            forall|k: int|
                0 <= k < i ==> tiles@[old(tiles)@.len() + k] == (Tile {
                    cell: body@[k],
                    paint: body_paint,
                }),
        decreases body@.len() - i,
    {
        tiles.push(Tile { cell: body[i], paint: body_paint });
        i += 1;
    }
    tiles.push(Tile { cell: head, paint: head_paint });
}

/// Lists what a client draws.
pub fn mirror_scene(context: &Mirror) -> (tiles: Vec<Tile>)
    ensures
        tiles@ == mirror_scene_of(context@),
{
    let mut tiles: Vec<Tile> = Vec::new();
    let mut i: usize = 0;
    while i < 256
        invariant
            i <= 256,
            tiles@ == tiles_below(context@, i as nat),
        decreases 256 - i,
    {
        let id = i as u8;
        match context.snakes.get(&id) {
            Some(snake) => {
                let mut body: Vec<Point> = Vec::new();
                let mut k: usize = 0;
                while k < snake.body.len()
                    invariant
                        k <= snake.body@.len(),
                        body@ == snake.body@.subrange(0, k as int),
                    decreases snake.body@.len() - k,
                {
                    body.push(snake.body[k]);
                    k += 1;
                }
                push_snake(&mut tiles, &body, snake.head, id == context.snake_id);
            },
            None => {},
        }
        i += 1;
    }
    tiles.push(Tile { cell: context.food, paint: Paint::Food });
    tiles
}

/// Lists what the game for one player draws.
pub fn solo_scene(context: &Solo) -> (tiles: Vec<Tile>)
    ensures
        tiles@ == solo_scene_of(context@),
{
    let mut tiles: Vec<Tile> = Vec::new();
    let body = context.snake().body();
    push_snake(&mut tiles, &body, context.snake().head(), true);
    tiles.push(Tile { cell: context.food(), paint: Paint::Food });
    tiles
}

} // verus!
