//! What holds of every world and every tick.

use crate::server::game::{count_in, SnakeView, WorldView};
use crate::util::{left_of, lemma_step_is_torus, step, Direction, Point};
use vstd::prelude::*;

verus! {

/// A cell occurs in a sequence exactly when its count there is positive.
pub proof fn lemma_count_in_contains(cells: Seq<Point>, p: Point)
    ensures
        cells.contains(p) <==> count_in(cells, p) >= 1,
    decreases cells.len(),
{
    if cells.len() > 0 {
        let front = cells.drop_last();
        lemma_count_in_contains(front, p);
        if front.contains(p) {
            let k = choose|k: int| 0 <= k < front.len() && front[k] == p;
            assert(cells[k] == p);
        }
        if cells.contains(p) && cells.last() != p {
            let k = choose|k: int| 0 <= k < cells.len() && cells[k] == p;
            assert(front[k] == p);
        }
        if cells.last() == p {
            assert(cells[cells.len() - 1] == p);
        }
    }
}

/// How often a snake lies on a cell: its body's share, and one more when
/// its head is there.
pub proof fn lemma_snake_count(s: SnakeView, p: Point)
    ensures
        s.count(p) == count_in(s.body, p) + if s.head == p {
            1nat
        } else {
            0nat
        },
        s.occupies(p) <==> s.count(p) >= 1,
        s.head == p && s.body.contains(p) ==> s.count(p) >= 2,
        s.head == p && !s.body.contains(p) ==> s.count(p) == 1,
{
    assert(s.cells().drop_last() =~= s.body);
    lemma_count_in_contains(s.body, p);
}

/// The count over the snakes below `n` is at least the share of any one of
/// them.
pub proof fn lemma_count_below_one(w: WorldView, n: nat, a: u8, p: Point)
    requires
        a < n <= 256,
        w.snakes.contains_key(a),
    ensures
        w.count_below(n, p) >= w.snakes[a].count(p),
    decreases n,
{
    if n - 1 != a {
        lemma_count_below_one(w, (n - 1) as nat, a, p);
    }
}

/// The count over the snakes below `n` is at least the shares of any two of
/// them together.
pub proof fn lemma_count_below_two(w: WorldView, n: nat, a: u8, b: u8, p: Point)
    requires
        a < n <= 256,
        b < n,
        a != b,
        w.snakes.contains_key(a),
        w.snakes.contains_key(b),
    ensures
        w.count_below(n, p) >= w.snakes[a].count(p) + w.snakes[b].count(p),
    decreases n,
{
    if n - 1 == a {
        lemma_count_below_one(w, (n - 1) as nat, b, p);
    } else if n - 1 == b {
        lemma_count_below_one(w, (n - 1) as nat, a, p);
    } else {
        lemma_count_below_two(w, (n - 1) as nat, a, b, p);
    }
}

/// When no snake below `n` other than `a` lies on `p`, the count over the
/// snakes below `n` is the share of `a` alone.
pub proof fn lemma_count_below_only(w: WorldView, n: nat, a: u8, p: Point)
    requires
        n <= 256,
        forall|j: u8|
            j < n && j != a && #[trigger] w.snakes.contains_key(j) ==> !w.snakes[j].occupies(p),
    ensures
        w.count_below(n, p) == if a < n && w.snakes.contains_key(a) {
            w.snakes[a].count(p)
        } else {
            0nat
        },
    decreases n,
{
    if n > 0 {
        lemma_count_below_only(w, (n - 1) as nat, a, p);
        let j = (n - 1) as u8;
        if j != a && w.snakes.contains_key(j) {
            lemma_snake_count(w.snakes[j], p);
        }
    }
}

/// Two snakes whose heads lie on the same cell both collide.
pub proof fn lemma_head_on_collision(w: WorldView, a: u8, b: u8)
    requires
        a != b,
        w.snakes.contains_key(a),
        w.snakes.contains_key(b),
        w.snakes[a].head == w.snakes[b].head,
    ensures
        w.collides(a),
        w.collides(b),
{
    let p = w.snakes[a].head;
    lemma_snake_count(w.snakes[a], p);
    lemma_snake_count(w.snakes[b], p);
    lemma_count_below_two(w, 256, a, b, p);
}

/// A snake whose head lies on a cell of its own body collides.
pub proof fn lemma_self_collision(w: WorldView, a: u8)
    requires
        w.snakes.contains_key(a),
        w.snakes[a].body.contains(w.snakes[a].head),
    ensures
        w.collides(a),
{
    let p = w.snakes[a].head;
    lemma_snake_count(w.snakes[a], p);
    lemma_count_below_one(w, 256, a, p);
}

/// A snake whose head lies on a cell of another snake collides.
pub proof fn lemma_collision_with_other(w: WorldView, a: u8, b: u8)
    requires
        a != b,
        w.snakes.contains_key(a),
        w.snakes.contains_key(b),
        w.snakes[b].occupies(w.snakes[a].head),
    ensures
        w.collides(a),
{
    let p = w.snakes[a].head;
    lemma_snake_count(w.snakes[a], p);
    lemma_snake_count(w.snakes[b], p);
    lemma_count_below_two(w, 256, a, b, p);
}

/// A snake collides only for one of these reasons: its head lies on its own
/// body, or on a cell of another snake.
pub proof fn lemma_collision_cause(w: WorldView, a: u8)
    requires
        w.snakes.contains_key(a),
        w.collides(a),
    ensures
        w.snakes[a].body.contains(w.snakes[a].head) || exists|b: u8|
            b != a && #[trigger] w.snakes.contains_key(b) && w.snakes[b].occupies(w.snakes[a].head),
{
    let p = w.snakes[a].head;
    if !w.snakes[a].body.contains(p) && !(exists|b: u8|
        b != a && #[trigger] w.snakes.contains_key(b) && w.snakes[b].occupies(p)) {
        lemma_snake_count(w.snakes[a], p);
        lemma_count_below_only(w, 256, a, p);
    }
}

/// What a tick does to one snake: its head takes one step on the torus; if
/// that brings it onto the food, the body gains the old head and is one
/// longer; otherwise the body gains the old head, loses its oldest segment
/// and keeps its length.
pub proof fn lemma_tick_of_snake(w: WorldView, id: u8)
    requires
        w.snakes.contains_key(id),
        w.snakes[id].body.len() >= 1,
    ensures
        w.after_move().snakes.contains_key(id),
        w.after_move().snakes[id].head == step(w.snakes[id].head, w.snakes[id].direction),
        w.after_move().snakes[id].direction == w.snakes[id].direction,
        w.after_move().snakes[id].head == w.food ==> {
            &&& w.after_move().snakes[id].body == w.snakes[id].body.push(w.snakes[id].head)
            &&& w.after_move().snakes[id].body.len() == w.snakes[id].body.len() + 1
        },
        w.after_move().snakes[id].head != w.food ==> {
            &&& w.after_move().snakes[id].body == w.snakes[id].body.push(w.snakes[id].head).skip(1)
            &&& w.after_move().snakes[id].body.len() == w.snakes[id].body.len()
        },
{
}

/// A tick in which no snake eats leaves the food clear of every snake, if it
/// was clear before.
pub proof fn lemma_tick_keeps_food_clear(w: WorldView)
    requires
        w.wf(),
        w.food_clear(),
        w.after_move().is_eater(None),
    ensures
        w.after_move().food_clear(),
{
    let after = w.after_move();
    if after.occupied(after.food) {
        let id = choose|id: u8| #[trigger]
            after.snakes.contains_key(id) && after.snakes[id].occupies(after.food);
        assert(w.snakes.contains_key(id));
        let s = w.snakes[id];
        let t = after.snakes[id];
        assert(t.head != w.food);
        assert(t.body.contains(w.food));
        let k = choose|k: int| 0 <= k < t.body.len() && t.body[k] == w.food;
        assert(t.body[k] == s.body.push(s.head)[k + 1]);
        if k + 1 < s.body.len() {
            assert(s.body[k + 1] == w.food);
            assert(s.body.contains(w.food));
        }
        assert(s.occupies(w.food));
        assert(w.occupied(w.food));
    }
}

/// Putting in a snake that does not lie on the food leaves the food clear
/// of every snake, if it was clear before.
pub proof fn lemma_arrival_keeps_food_clear(w: WorldView, id: u8, s: SnakeView)
    requires
        w.food_clear(),
        !s.occupies(w.food),
    ensures
        w.with_snake(id, s).food_clear(),
{
    let after = w.with_snake(id, s);
    if after.occupied(after.food) {
        let j = choose|j: u8| #[trigger]
            after.snakes.contains_key(j) && after.snakes[j].occupies(after.food);
        if j != id {
            assert(w.snakes.contains_key(j));
        }
    }
}

/// Removing a snake leaves the food clear of every snake, if it was clear
/// before.
pub proof fn lemma_removal_keeps_food_clear(w: WorldView, id: u8)
    requires
        w.food_clear(),
    ensures
        w.without_snake(id).food_clear(),
{
    let after = w.without_snake(id);
    if after.occupied(after.food) {
        let j = choose|j: u8| #[trigger]
            after.snakes.contains_key(j) && after.snakes[j].occupies(after.food);
        assert(w.snakes.contains_key(j));
    }
}

/// Turning a snake leaves the food clear of every snake, if it was clear
/// before.
pub proof fn lemma_turn_keeps_food_clear(w: WorldView, id: u8, direction: Direction)
    requires
        w.food_clear(),
        w.snakes.contains_key(id),
    ensures
        w.with_snake(id, w.snakes[id].turned(direction)).food_clear(),
{
    let after = w.with_snake(id, w.snakes[id].turned(direction));
    if after.occupied(after.food) {
        let j = choose|j: u8| #[trigger]
            after.snakes.contains_key(j) && after.snakes[j].occupies(after.food);
        assert(w.snakes.contains_key(j));
        assert(w.snakes[j].occupies(w.food));
    }
}

/// Spawning puts the new snake on two cells of the board that held neither
/// a snake nor the food, the head apart from the body, and leaves the food
/// clear if it was.
pub proof fn lemma_spawn_on_free_cells(w: WorldView, id: u8, head: Point)
    requires
        w.wf(),
        1 <= id <= 254,
        w.can_spawn_at(head),
    ensures
        WorldView::spawned(head).cells() == seq![left_of(head), head],
        forall|p: Point| WorldView::spawned(head).occupies(p) ==> w.free(p),
        WorldView::spawned(head).direction == Direction::Right,
        !WorldView::spawned(head).body.contains(head),
        w.with_snake(id, WorldView::spawned(head)).wf(),
        w.food_clear() ==> w.with_snake(id, WorldView::spawned(head)).food_clear(),
{
    let s = WorldView::spawned(head);
    let after = w.with_snake(id, s);
    assert(s.cells() =~= seq![left_of(head), head]);
    assert forall|p: Point| s.occupies(p) implies w.free(p) by {
        if s.body.contains(p) {
            let k = choose|k: int| 0 <= k < s.body.len() && s.body[k] == p;
            assert(p == left_of(head));
        }
    }
    assert forall|j: u8| #[trigger] after.snakes.contains_key(j) implies 1 <= j <= 254
        && after.snakes[j].wf() by {
        if j != id {
            assert(w.snakes.contains_key(j));
        }
    }
    if w.food_clear() && after.occupied(after.food) {
        let j = choose|j: u8| #[trigger]
            after.snakes.contains_key(j) && after.snakes[j].occupies(after.food);
        if j != id {
            assert(w.snakes.contains_key(j));
            assert(w.occupied(w.food));
        }
    }
}

/// A tick takes a well-formed world to a well-formed world.
pub proof fn lemma_tick_keeps_wf(
    w: WorldView,
    next: WorldView,
    eater: Option<u8>,
    killed: Option<Vec<u8>>,
)
    requires
        w.wf(),
        w.ticks_to(next, eater, killed),
    ensures
        next.wf(),
{
    assert forall|id: u8| #[trigger] next.snakes.contains_key(id) implies 1 <= id <= 254
        && next.snakes[id].wf() by {
        assert(w.snakes.contains_key(id));
        let s = w.snakes[id];
        let t = next.snakes[id];
        lemma_step_is_torus(s.head, s.direction);
        assert forall|i: int| 0 <= i < t.body.len() implies (#[trigger] t.body[i]).on_board() by {
            let grown = s.body.push(s.head);
            if t.head == w.food {
                assert(t.body[i] == grown[i]);
            } else {
                assert(t.body[i] == grown[i + 1]);
            }
        }
    }
}

/// The snake that a tick reports as the eater has its head where the food
/// was and a body one longer than before; and when a cell without a snake
/// was left, the food lies on a cell of the board that holds no snake as the
/// tick completes.
pub proof fn lemma_tick_eater(w: WorldView, next: WorldView, eater: u8, killed: Option<Vec<u8>>)
    requires
        w.wf(),
        w.ticks_to(next, Some(eater), killed),
    ensures
        w.snakes.contains_key(eater),
        next.snakes[eater].head == w.food,
        next.snakes[eater].body == w.snakes[eater].body.push(w.snakes[eater].head),
        next.snakes[eater].body.len() == w.snakes[eater].body.len() + 1,
        w.after_move().has_vacant_cell() ==> next.food.on_board() && next.food_clear(),
{
    lemma_tick_of_snake(w, eater);
    if w.after_move().has_vacant_cell() && next.occupied(next.food) {
        let id = choose|id: u8| #[trigger]
            next.snakes.contains_key(id) && next.snakes[id].occupies(next.food);
        assert(w.after_move().snakes.contains_key(id));
        assert(w.after_move().occupied(next.food));
    }
}

/// A snake that a tick does not report as the eater keeps the length of its
/// body.
pub proof fn lemma_tick_others(
    w: WorldView,
    next: WorldView,
    eater: Option<u8>,
    killed: Option<Vec<u8>>,
    id: u8,
)
    requires
        w.wf(),
        w.ticks_to(next, eater, killed),
        w.snakes.contains_key(id),
        next.snakes[id].head != w.food,
    ensures
        next.snakes[id].body.len() == w.snakes[id].body.len(),
{
    lemma_tick_of_snake(w, id);
}

/// Two snakes whose heads share a cell after the move of a tick are both
/// among the killed that the tick reports.
pub proof fn lemma_tick_kills_both(
    w: WorldView,
    next: WorldView,
    eater: Option<u8>,
    killed: Option<Vec<u8>>,
    a: u8,
    b: u8,
)
    requires
        w.ticks_to(next, eater, killed),
        a != b,
        next.snakes.contains_key(a),
        next.snakes.contains_key(b),
        next.snakes[a].head == next.snakes[b].head,
    ensures
        killed is Some,
        killed->0@.contains(a),
        killed->0@.contains(b),
{
    lemma_head_on_collision(w.after_move(), a, b);
}

/// A snake whose head lies on its own body after the move of a tick is among
/// the killed that the tick reports.
pub proof fn lemma_tick_kills_self(
    w: WorldView,
    next: WorldView,
    eater: Option<u8>,
    killed: Option<Vec<u8>>,
    a: u8,
)
    requires
        w.ticks_to(next, eater, killed),
        next.snakes.contains_key(a),
        next.snakes[a].body.contains(next.snakes[a].head),
    ensures
        killed is Some,
        killed->0@.contains(a),
{
    lemma_self_collision(w.after_move(), a);
}

/// A snake that a tick does not report as killed lies with its head neither
/// on its own body nor on any cell of another snake.
pub proof fn lemma_tick_spares(
    w: WorldView,
    next: WorldView,
    eater: Option<u8>,
    killed: Option<Vec<u8>>,
    a: u8,
    b: u8,
)
    requires
        w.ticks_to(next, eater, killed),
        next.snakes.contains_key(a),
        next.snakes.contains_key(b),
        a != b,
        killed is Some ==> !killed->0@.contains(a),
    ensures
        !next.snakes[a].body.contains(next.snakes[a].head),
        !next.snakes[b].occupies(next.snakes[a].head),
{
    let moved = w.after_move();
    assert(!moved.collides(a));
    if next.snakes[a].body.contains(next.snakes[a].head) {
        lemma_self_collision(moved, a);
    }
    if next.snakes[b].occupies(next.snakes[a].head) {
        lemma_collision_with_other(moved, a, b);
    }
}

} // verus!
