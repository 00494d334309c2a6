//! The client's copy follows the server's world: a copy that agrees with the
//! world before an event agrees with it again once the frames of that event
//! have been applied.

use crate::client::game::{MirrorView, SnakeView as MirrorSnake, State};
use crate::client::session::{
    all_have_body, heads_known, mirror_of, point_of, with_heads, with_records,
};
use crate::frame::{FrameView, HeadRecord};
use crate::server::game::{SnakeView, WorldView};
use crate::server::lemmas::{lemma_tick_keeps_wf, lemma_tick_of_snake};
use crate::server::session::{
    cell_of, food_update_of, head_update_of, heads_below, info_of, lemma_records_below_wf,
    record_of, records_below, snake_connect_of,
};
use crate::util::Point;
use vstd::prelude::*;

verus! {

/// The copy `m` agrees with the world `w`: the same food, the same snakes,
/// and each snake with the same body and head.
pub open spec fn mirrors(m: MirrorView, w: WorldView) -> bool {
    &&& m.food == w.food
    &&& m.snakes.dom() == w.snakes.dom()
    &&& forall|id: u8| #[trigger]
        w.snakes.contains_key(id) ==> m.snakes[id].body == w.snakes[id].body && m.snakes[id].head
            == w.snakes[id].head
}

/// A point of the board survives the wire.
pub proof fn lemma_point_of_cell(p: Point)
    requires
        p.on_board(),
    ensures
        point_of(cell_of(p)) == p,
{
}

/// A well-formed snake survives the wire: the copy made from its record has
/// its body and its head.
pub proof fn lemma_mirror_of_record(id: u8, s: SnakeView)
    requires
        s.wf(),
    ensures
        mirror_of(record_of(id, s)).body == s.body,
        mirror_of(record_of(id, s)).head == s.head,
        record_of(id, s).body.len() >= 1,
{
    assert(mirror_of(record_of(id, s)).body =~= s.body);
}

/// Putting the records of the snakes below `n` into an empty copy gives
/// exactly those snakes.
pub proof fn lemma_with_records_below(w: WorldView, n: nat)
    requires
        w.wf(),
        n <= 256,
    ensures
        with_records(Map::<u8, MirrorSnake>::empty(), records_below(w, n)).dom() == Set::new(
            |id: u8| id < n && w.snakes.contains_key(id),
        ),
        forall|id: u8|
            id < n && #[trigger] w.snakes.contains_key(id) ==> with_records(
                Map::<u8, MirrorSnake>::empty(),
                records_below(w, n),
            )[id] == mirror_of(record_of(id, w.snakes[id])),
    decreases n,
{
    let empty = Map::<u8, MirrorSnake>::empty();
    let now = with_records(empty, records_below(w, n));
    let ids = Set::new(|id: u8| id < n && w.snakes.contains_key(id));
    if n > 0 {
        lemma_with_records_below(w, (n - 1) as nat);
        let last = (n - 1) as u8;
        let front = records_below(w, (n - 1) as nat);
        let before = with_records(empty, front);
        let ids_before = Set::new(|id: u8| id < n - 1 && w.snakes.contains_key(id));
        assert(before.dom() == ids_before);
        if w.snakes.contains_key(last) {
            let record = record_of(last, w.snakes[last]);
            assert(front.push(record).drop_last() =~= front);
            assert(front.push(record).last() == record);
            assert(now == before.insert(last, mirror_of(record)));
            assert(ids =~= ids_before.insert(last));
        } else {
            assert(now == before);
            assert(ids =~= ids_before);
        }
    } else {
        assert(now == empty);
        assert(ids =~= Set::<u8>::empty());
    }
}

/// A client that joins is told the world as it is: applying the `Info`
/// frame to a copy without snakes gives a copy that agrees with the world,
/// knows its own id and plays.
pub proof fn lemma_info_mirrors(m: MirrorView, w: WorldView, own_id: u8)
    requires
        w.wf(),
        m.snakes == Map::<u8, MirrorSnake>::empty(),
    ensures
        m.apply(info_of(w, own_id)) is Ok,
        mirrors(m.apply(info_of(w, own_id))->Ok_0, w),
        m.apply(info_of(w, own_id))->Ok_0.snake_id == own_id,
        m.apply(info_of(w, own_id))->Ok_0.state == State::Playing,
{
    lemma_records_below_wf(w, 256);
    lemma_with_records_below(w, 256);
    lemma_point_of_cell(w.food);
    assert(all_have_body(records_below(w, 256)));
    assert(Set::new(|id: u8| id < 256 && w.snakes.contains_key(id)) =~= w.snakes.dom());
    assert forall|id: u8| #[trigger] w.snakes.contains_key(id) implies mirror_of(
        record_of(id, w.snakes[id]),
    ).body == w.snakes[id].body && mirror_of(record_of(id, w.snakes[id])).head
        == w.snakes[id].head by {
        lemma_mirror_of_record(id, w.snakes[id]);
    }
}

/// When a snake joins, the frame that announces it keeps a copy in
/// agreement with the world.
pub proof fn lemma_connect_mirrors(m: MirrorView, w: WorldView, id: u8, s: SnakeView)
    requires
        mirrors(m, w),
        s.wf(),
    ensures
        m.apply(snake_connect_of(id, s)) is Ok,
        mirrors(m.apply(snake_connect_of(id, s))->Ok_0, w.with_snake(id, s)),
{
    lemma_mirror_of_record(id, s);
    let after = m.apply(snake_connect_of(id, s))->Ok_0;
    let world = w.with_snake(id, s);
    assert(after.snakes.dom() =~= world.snakes.dom());
    assert forall|j: u8| #[trigger] world.snakes.contains_key(j) implies after.snakes[j].body
        == world.snakes[j].body && after.snakes[j].head == world.snakes[j].head by {
        if j != id {
            assert(w.snakes.contains_key(j));
        }
    }
}

/// When a snake leaves, the frame that tells so keeps a copy in agreement
/// with the world.
pub proof fn lemma_disconnect_mirrors(m: MirrorView, w: WorldView, id: u8)
    requires
        mirrors(m, w),
    ensures
        m.apply(FrameView::SnakeDisconnect { id }) is Ok,
        mirrors(m.apply(FrameView::SnakeDisconnect { id })->Ok_0, w.without_snake(id)),
{
    let after = m.apply(FrameView::SnakeDisconnect { id })->Ok_0;
    let world = w.without_snake(id);
    assert(after.snakes.dom() =~= world.snakes.dom());
    assert forall|j: u8| #[trigger] world.snakes.contains_key(j) implies after.snakes[j].body
        == world.snakes[j].body && after.snakes[j].head == world.snakes[j].head by {
        assert(w.snakes.contains_key(j));
    }
}

/// Applying the heads of the snakes below `n` moves exactly those snakes,
/// each to its head.
pub proof fn lemma_with_heads_below(snakes: Map<u8, MirrorSnake>, w: WorldView, n: nat)
    requires
        n <= 256,
        snakes.dom() == w.snakes.dom(),
    ensures
        heads_known(snakes, heads_below(w, n)),
        with_heads(snakes, heads_below(w, n)).dom() == snakes.dom(),
        forall|id: u8|
            id < n && #[trigger] w.snakes.contains_key(id) ==> with_heads(
                snakes,
                heads_below(w, n),
            )[id] == snakes[id].advanced(point_of(cell_of(w.snakes[id].head))),
        forall|id: u8|
            id >= n && #[trigger] w.snakes.contains_key(id) ==> with_heads(
                snakes,
                heads_below(w, n),
            )[id] == snakes[id],
    decreases n,
{
    if n > 0 {
        lemma_with_heads_below(snakes, w, (n - 1) as nat);
        let last = (n - 1) as u8;
        let front = heads_below(w, (n - 1) as nat);
        if w.snakes.contains_key(last) {
            let h = HeadRecord { id: last, head: cell_of(w.snakes[last].head) };
            let all = front.push(h);
            assert(all.drop_last() =~= front);
            assert(all.last() == h);
            assert forall|i: int| 0 <= i < all.len() implies snakes.contains_key(
                (#[trigger] all[i]).id,
            ) by {
                if i < front.len() {
                    assert(all[i] == front[i]);
                }
            }
            assert(with_heads(snakes, all).dom() =~= snakes.dom());
        }
    }
}

/// After a tick, the frames of the tick bring a copy that agreed with the
/// world before into agreement with the world after: the heads of all
/// snakes and, when a snake ate, the news of the meal, in this order or in
/// the other. This holds when no snake but the reported eater reached the
/// food: of two snakes that reach it together only one is reported, and the
/// copy lets only that one grow.
pub proof fn lemma_tick_mirrors(
    m: MirrorView,
    w: WorldView,
    next: WorldView,
    eater: Option<u8>,
    killed: Option<Vec<u8>>,
)
    requires
        w.wf(),
        mirrors(m, w),
        w.ticks_to(next, eater, killed),
        forall|id: u8|
            #[trigger] next.snakes.contains_key(id) && next.snakes[id].head == w.food ==> eater
                == Some(id),
    ensures
        m.apply(head_update_of(next)) is Ok,
        eater is None ==> mirrors(m.apply(head_update_of(next))->Ok_0, next),
        eater is Some ==> {
            let moved = m.apply(head_update_of(next))->Ok_0;
            let fed = m.apply(food_update_of(eater->0, next.food));
            &&& moved.apply(food_update_of(eater->0, next.food)) is Ok
            &&& mirrors(moved.apply(food_update_of(eater->0, next.food))->Ok_0, next)
            &&& fed is Ok
            &&& fed->Ok_0.apply(head_update_of(next)) is Ok
            &&& mirrors(fed->Ok_0.apply(head_update_of(next))->Ok_0, next)
        },
{
    lemma_tick_keeps_wf(w, next, eater, killed);
    lemma_point_of_cell(next.food);
    assert(next.snakes.dom() =~= w.snakes.dom());
    lemma_with_heads_below(m.snakes, next, 256);
    let moved = m.apply(head_update_of(next))->Ok_0;
    assert forall|id: u8| #[trigger] next.snakes.contains_key(id) implies {
        &&& moved.snakes[id].head == next.snakes[id].head
        &&& next.snakes[id].head != w.food ==> moved.snakes[id].body == next.snakes[id].body
        &&& next.snakes[id].head == w.food ==> moved.snakes[id].grown().body
            == next.snakes[id].body
    } by {
        assert(w.snakes.contains_key(id));
        lemma_tick_of_snake(w, id);
        lemma_point_of_cell(next.snakes[id].head);
        let grown = w.snakes[id].body.push(w.snakes[id].head);
        assert(seq![grown[0]] + grown.skip(1) =~= grown);
    }
    match eater {
        None => {
            assert(mirrors(moved, next));
        },
        Some(e) => {
            assert(w.snakes.contains_key(e));
            let news = food_update_of(e, next.food);
            let both = moved.apply(news)->Ok_0;
            assert(both.snakes.dom() =~= next.snakes.dom());
            assert(mirrors(both, next)) by {
                assert forall|id: u8| #[trigger] next.snakes.contains_key(id) implies {
                    &&& both.snakes[id].body == next.snakes[id].body
                    &&& both.snakes[id].head == next.snakes[id].head
                } by {}
            }
            let fed = m.apply(news)->Ok_0;
            assert(fed.snakes == m.snakes.insert(e, m.snakes[e].grown()));
            assert(fed.snakes.dom() =~= next.snakes.dom());
            lemma_with_heads_below(fed.snakes, next, 256);
            let other = fed.apply(head_update_of(next))->Ok_0;
            assert(other.snakes == with_heads(fed.snakes, heads_below(next, 256)));
            assert(mirrors(other, next)) by {
                assert forall|id: u8| #[trigger] next.snakes.contains_key(id) implies {
                    &&& other.snakes[id].body == next.snakes[id].body
                    &&& other.snakes[id].head == next.snakes[id].head
                } by {
                    assert(w.snakes.contains_key(id));
                    lemma_tick_of_snake(w, id);
                    lemma_point_of_cell(next.snakes[id].head);
                    if id == e {
                        let s = m.snakes[e];
                        assert((seq![s.old_tail] + s.body).push(s.head).skip(1) =~= s.body.push(
                            s.head,
                        ));
                    }
                }
            }
        },
    }
}

} // verus!
