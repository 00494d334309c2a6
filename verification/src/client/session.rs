//! What a client does with the frames it receives, and when it sends one.

use crate::client::game::{GameContext, MirrorView, Snake, SnakeView, State};
use crate::frame::{
    decode_body, parse_from, Cell, Frame, FrameError, FrameView, HeadRecord, SnakeRecord,
    SnakeRecordView,
};
use crate::packet::{PacketType, ReadablePacket};
use crate::util::{Direction, Point};
use std::collections::VecDeque;
use vstd::prelude::*;

verus! {

/// Address of the server when none is given.
pub const ADDR: &'static str = "127.0.0.1:14300";

/// The point that a cell of the wire stands for.
pub open spec fn point_of(c: Cell) -> Point {
    Point(c.x as i32, c.y as i32)
}

/// The snake that a record of the wire stands for.
pub open spec fn mirror_of(r: SnakeRecordView) -> SnakeView {
    SnakeView {
        body: Seq::new(r.body.len(), |i: int| point_of(r.body[i])),
        head: point_of(r.head),
        old_tail: point_of(r.body[0]),
    }
}

/// The snakes `snakes` after each of `records` was put under its id, one
/// after the other.
pub open spec fn with_records(snakes: Map<u8, SnakeView>, records: Seq<SnakeRecordView>) -> Map<
    u8,
    SnakeView,
>
    decreases records.len(),
{
    if records.len() == 0 {
        snakes
    } else {
        with_records(snakes, records.drop_last()).insert(
            records.last().id,
            mirror_of(records.last()),
        )
    }
}

/// The snakes `snakes` after each of `heads` moved the head of its snake,
/// one after the other.
pub open spec fn with_heads(snakes: Map<u8, SnakeView>, heads: Seq<HeadRecord>) -> Map<
    u8,
    SnakeView,
>
    decreases heads.len(),
{
    if heads.len() == 0 {
        snakes
    } else {
        let prev = with_heads(snakes, heads.drop_last());
        prev.insert(heads.last().id, prev[heads.last().id].advanced(point_of(heads.last().head)))
    }
}

/// Every record has at least one body cell.
pub open spec fn all_have_body(records: Seq<SnakeRecordView>) -> bool {
    forall|i: int| 0 <= i < records.len() ==> (#[trigger] records[i]).body.len() >= 1
}

/// Every snake named in `heads` is among `snakes`.
pub open spec fn heads_known(snakes: Map<u8, SnakeView>, heads: Seq<HeadRecord>) -> bool {
    forall|i: int| 0 <= i < heads.len() ==> snakes.contains_key((#[trigger] heads[i]).id)
}

/// Why a received frame changed nothing.
#[derive(Clone, Copy, Debug, PartialEq, Eq, Structural)]
pub enum ClientError {
    /// The frame could not be decoded.
    Frame(FrameError),
    /// The frame is of a kind that a server does not send to a client that
    /// plays.
    UnexpectedType(PacketType),
    /// The frame speaks of a snake that the client does not know.
    UnknownSnake(u8),
}

impl MirrorView {
    /// The copy of the world after `frame` was received, or why the frame
    /// does not apply. `Info` sets the own id, adds the listed snakes, sets
    /// the food and starts play; `FoodUpdate` lets the eater grow and moves
    /// the food; `HeadUpdate` moves the listed heads; `SnakeConnect` adds a
    /// snake; `SnakeDisconnect` removes one. A snake without a body, a
    /// snake that is not known, and a frame of a kind that only a client
    /// sends or that refuses a connection do not apply.
    pub open spec fn apply(self, frame: FrameView) -> Result<MirrorView, ClientError> {
        match frame {
            FrameView::Info { own_id, snakes, food } => if all_have_body(snakes) {
                Ok(
                    MirrorView {
                        snake_id: own_id,
                        snakes: with_records(self.snakes, snakes),
                        food: point_of(food),
                        state: State::Playing,
                    },
                )
            } else {
                Err(ClientError::Frame(FrameError::Malformed))
            },
            FrameView::FoodUpdate { eater, food } => if self.snakes.contains_key(eater) {
                Ok(
                    MirrorView {
                        snake_id: self.snake_id,
                        snakes: self.snakes.insert(eater, self.snakes[eater].grown()),
                        food: point_of(food),
                        state: self.state,
                    },
                )
            } else {
                Err(ClientError::UnknownSnake(eater))
            },
            FrameView::HeadUpdate { heads } => if heads_known(self.snakes, heads) {
                Ok(
                    MirrorView {
                        snake_id: self.snake_id,
                        snakes: with_heads(self.snakes, heads),
                        food: self.food,
                        state: self.state,
                    },
                )
            } else {
                Err(ClientError::UnknownSnake(first_unknown(self.snakes, heads)))
            },
            FrameView::SnakeConnect { snake } => if snake.body.len() >= 1 {
                Ok(
                    MirrorView {
                        snake_id: self.snake_id,
                        snakes: self.snakes.insert(snake.id, mirror_of(snake)),
                        food: self.food,
                        state: self.state,
                    },
                )
            } else {
                Err(ClientError::Frame(FrameError::Malformed))
            },
            FrameView::SnakeDisconnect { id } => Ok(
                MirrorView {
                    snake_id: self.snake_id,
                    snakes: self.snakes.remove(id),
                    food: self.food,
                    state: self.state,
                },
            ),
            FrameView::DirectionUpdate { .. } => Err(
                ClientError::UnexpectedType(PacketType::DirectionUpdate),
            ),
            FrameView::ConnRejected => Err(ClientError::UnexpectedType(PacketType::ConnRejected)),
        }
    }
}

/// The id of the first head in `heads` whose snake is not among `snakes`.
pub open spec fn first_unknown(snakes: Map<u8, SnakeView>, heads: Seq<HeadRecord>) -> u8
    decreases heads.len(),
{
    if heads.len() == 0 {
        0
    } else if !heads_known(snakes, heads.drop_last()) {
        first_unknown(snakes, heads.drop_last())
    } else {
        heads.last().id
    }
}

/// Converts a cell of the wire to a point.
pub fn point(c: Cell) -> (p: Point)
    ensures
        p == point_of(c),
{
    Point(c.x as i32, c.y as i32)
}

/// Builds the mirrored snake that a record of the wire stands for. The
/// record must have a body.
pub fn read_snake(record: &SnakeRecord) -> (s: Snake)
    requires
        record@.body.len() >= 1,
    ensures
        s@ == mirror_of(record@),
{
    let mut body: VecDeque<Point> = VecDeque::new();
    let mut i: usize = 0;
    while i < record.body.len()
        invariant
            i <= record.body@.len(),
            body@.len() == i,
            forall|k: int| 0 <= k < i ==> body@[k] == point_of(record.body@[k]),
        decreases record.body@.len() - i,
    {
        body.push_back(point(record.body[i]));
        i += 1;
    }
    let s = Snake::new(body, point(record.head));
    s
}

/// The first head whose snake is not known stays the first when more heads
/// follow.
pub proof fn lemma_first_unknown(snakes: Map<u8, SnakeView>, heads: Seq<HeadRecord>, i: int, n: int)
    requires
        0 <= i < n <= heads.len(),
        heads_known(snakes, heads.subrange(0, i)),
        !snakes.contains_key(heads[i].id),
    ensures
        !heads_known(snakes, heads.subrange(0, n)),
        first_unknown(snakes, heads.subrange(0, n)) == heads[i].id,
    decreases n,
{
    let upto = heads.subrange(0, n);
    assert(upto[i] == heads[i]);
    assert(upto.drop_last() =~= heads.subrange(0, n - 1));
    if n > i + 1 {
        lemma_first_unknown(snakes, heads, i, n - 1);
    }
}

/// Moving heads of known snakes adds no snake and removes none.
pub proof fn lemma_with_heads_dom(snakes: Map<u8, SnakeView>, heads: Seq<HeadRecord>)
    requires
        heads_known(snakes, heads),
    ensures
        with_heads(snakes, heads).dom() == snakes.dom(),
    decreases heads.len(),
{
    if heads.len() > 0 {
        let front = heads.drop_last();
        assert forall|i: int| 0 <= i < front.len() implies snakes.contains_key(
            (#[trigger] front[i]).id,
        ) by {
            assert(front[i] == heads[i]);
        }
        lemma_with_heads_dom(snakes, front);
        assert(snakes.contains_key(heads[heads.len() - 1].id));
        assert(with_heads(snakes, heads).dom() =~= snakes.dom());
    }
}

/// Puts every record of `records` into the copy under its id.
fn insert_records(context: &mut GameContext, records: &Vec<SnakeRecord>)
    requires
        all_have_body(crate::frame::records_view(records@)),
    ensures
        final(context)@.snakes == with_records(
            old(context)@.snakes,
            crate::frame::records_view(records@),
        ),
        final(context).snake_id == old(context).snake_id,
        final(context).food == old(context).food,
        final(context).state == old(context).state,
{
    let ghost views = crate::frame::records_view(records@);
    let ghost start = context@.snakes;
    let mut i: usize = 0;
    assert(views.subrange(0, 0) =~= Seq::<SnakeRecordView>::empty());
    while i < records.len()
        invariant
            i <= records@.len(),
            views == crate::frame::records_view(records@),
            all_have_body(views),
            context@.snakes == with_records(start, views.subrange(0, i as int)),
            context.snake_id == old(context).snake_id,
            context.food == old(context).food,
            context.state == old(context).state,
        decreases records@.len() - i,
    {
        let record = &records[i];
        assert(record@ == views[i as int]);
        let ghost before = context@.snakes;
        let snake = read_snake(record);
        context.snakes.insert(record.id, snake);
        proof {
            assert(views.subrange(0, i + 1).drop_last() =~= views.subrange(0, i as int));
            assert(context@.snakes =~= before.insert(record.id, mirror_of(record@)));
        }
        i += 1;
    }
    assert(views.subrange(0, records@.len() as int) =~= views);
}

/// Moves the head of every snake named in `heads`, one after the other.
fn move_heads(context: &mut GameContext, heads: &Vec<HeadRecord>)
    requires
        heads_known(old(context)@.snakes, heads@),
    ensures
        final(context)@.snakes == with_heads(old(context)@.snakes, heads@),
        final(context).snake_id == old(context).snake_id,
        final(context).food == old(context).food,
        final(context).state == old(context).state,
{
    let ghost start = context@.snakes;
    let mut i: usize = 0;
    assert(heads@.subrange(0, 0) =~= Seq::<HeadRecord>::empty());
    while i < heads.len()
        invariant
            i <= heads@.len(),
            heads_known(start, heads@),
            context@.snakes == with_heads(start, heads@.subrange(0, i as int)),
            context@.snakes.dom() == start.dom(),
            context.snake_id == old(context).snake_id,
            context.food == old(context).food,
            context.state == old(context).state,
        decreases heads@.len() - i,
    {
        let h = heads[i];
        let ghost before = context@.snakes;
        assert(start.contains_key(heads@[i as int].id));
        assert(before.contains_key(h.id));
        match context.snakes.remove(&h.id) {
            Some(mut snake) => {
                snake.advance(point(h.head));
                context.snakes.insert(h.id, snake);
            },
            None => {},
        }
        proof {
            assert(heads@.subrange(0, i + 1).drop_last() =~= heads@.subrange(0, i as int));
            assert(context@.snakes =~= before.insert(
                h.id,
                before[h.id].advanced(point_of(h.head)),
            ));
            assert(context@.snakes.dom() =~= start.dom());
        }
        i += 1;
    }
    assert(heads@.subrange(0, heads@.len() as int) =~= heads@);
}

/// Applies a frame to the copy of the world. A frame that does not apply
/// changes nothing.
pub fn apply_frame(context: &mut GameContext, frame: &Frame) -> (r: Result<(), ClientError>)
    ensures
        match r {
            Ok(()) => old(context)@.apply(frame@) == Ok::<MirrorView, ClientError>(
                final(context)@,
            ),
            Err(e) => {
                &&& old(context)@.apply(frame@) == Err::<MirrorView, ClientError>(e)
                &&& final(context)@ == old(context)@
            },
        },
{
    match frame {
        Frame::Info { own_id, snakes, food } => {
            let ghost views = crate::frame::records_view(snakes@);
            let mut i: usize = 0;
            while i < snakes.len()
                invariant
                    i <= snakes@.len(),
                    views == crate::frame::records_view(snakes@),
                    frame@ == (FrameView::Info { own_id: *own_id, snakes: views, food: *food }),
                    context@ == old(context)@,
                    forall|k: int| 0 <= k < i ==> (#[trigger] views[k]).body.len() >= 1,
                decreases snakes@.len() - i,
            {
                if snakes[i].body.len() == 0 {
                    assert(views[i as int].body.len() == 0);
                    assert(!all_have_body(views));
                    return Err(ClientError::Frame(FrameError::Malformed));
                }
                i += 1;
            }
            insert_records(context, snakes);
            context.snake_id = *own_id;
            context.food = point(*food);
            context.state = State::Playing;
            assert(context@.snakes =~= with_records(old(context)@.snakes, views));
            Ok(())
        },
        Frame::FoodUpdate { eater, food } => {
            match context.snakes.remove(eater) {
                Some(mut snake) => {
                    snake.grow();
                    context.snakes.insert(*eater, snake);
                    context.food = point(*food);
                    assert(context@.snakes =~= old(context)@.snakes.insert(
                        *eater,
                        old(context)@.snakes[*eater].grown(),
                    ));
                    Ok(())
                },
                None => {
                    assert(context@.snakes =~= old(context)@.snakes);
                    Err(ClientError::UnknownSnake(*eater))
                },
            }
        },
        Frame::HeadUpdate { heads } => {
            let mut i: usize = 0;
            assert(heads@.subrange(0, 0) =~= Seq::<HeadRecord>::empty());
            while i < heads.len()
                invariant
                    i <= heads@.len(),
                    frame@ == (FrameView::HeadUpdate { heads: heads@ }),
                    context@ == old(context)@,
                    heads_known(context@.snakes, heads@.subrange(0, i as int)),
                decreases heads@.len() - i,
            {
                let id = heads[i].id;
                if !context.snakes.contains_key(&id) {
                    proof {
                        lemma_first_unknown(
                            context@.snakes,
                            heads@,
                            i as int,
                            heads@.len() as int,
                        );
                        assert(heads@.subrange(0, heads@.len() as int) =~= heads@);
                    }
                    return Err(ClientError::UnknownSnake(id));
                }
                assert forall|k: int| 0 <= k < i + 1 implies context@.snakes.contains_key(
                    (#[trigger] heads@.subrange(0, i + 1)[k]).id,
                ) by {
                    if k < i {
                        assert(heads@.subrange(0, i as int)[k] == heads@.subrange(0, i + 1)[k]);
                    }
                }
                i += 1;
            }
            assert(heads@.subrange(0, heads@.len() as int) =~= heads@);
            move_heads(context, heads);
            Ok(())
        },
        Frame::SnakeConnect { snake } => {
            if snake.body.len() == 0 {
                return Err(ClientError::Frame(FrameError::Malformed));
            }
            let mirrored = read_snake(snake);
            context.snakes.insert(snake.id, mirrored);
            assert(context@.snakes =~= old(context)@.snakes.insert(snake.id, mirror_of(snake@)));
            Ok(())
        },
        Frame::SnakeDisconnect { id } => {
            let _ = context.snakes.remove(id);
            assert(context@.snakes =~= old(context)@.snakes.remove(*id));
            Ok(())
        },
        Frame::DirectionUpdate { .. } => Err(
            ClientError::UnexpectedType(PacketType::DirectionUpdate),
        ),
        Frame::ConnRejected => Err(ClientError::UnexpectedType(PacketType::ConnRejected)),
    }
}

/// What a received packet does to the copy of the world: the outcome of
/// applying the frame that its unread bytes stand for, or the refusal of
/// bytes that stand for none.
pub open spec fn processed(
    before: MirrorView,
    kind: PacketType,
    payload: Seq<u8>,
    cursor: int,
) -> Result<MirrorView, ClientError> {
    match parse_from(kind, payload, cursor) {
        None => Err(ClientError::Frame(FrameError::Malformed)),
        Some(frame) => before.apply(frame),
    }
}

/// Reads the unread part of `packet` as a frame of its kind and applies it
/// to the copy of the world. A packet that cannot be read as a frame, and a
/// frame that does not apply, change nothing.
pub fn process_packet(packet: &mut ReadablePacket, context: &mut GameContext) -> (r: Result<
    (),
    ClientError,
>)
    requires
        old(packet).wf(),
    ensures
        final(packet).wf(),
        final(packet).payload() == old(packet).payload(),
        final(packet).kind() == old(packet).kind(),
        match r {
            Ok(()) => processed(
                old(context)@,
                old(packet).kind(),
                old(packet).payload(),
                old(packet).cursor() as int,
            ) == Ok::<MirrorView, ClientError>(final(context)@),
            Err(e) => processed(
                old(context)@,
                old(packet).kind(),
                old(packet).payload(),
                old(packet).cursor() as int,
            ) == Err::<MirrorView, ClientError>(e) && final(context)@ == old(context)@,
        },
{
    match Frame::parse(packet) {
        Err(cause) => Err(ClientError::Frame(cause)),
        Ok(frame) => apply_frame(context, &frame),
    }
}

/// What the body of a received frame (type byte, then payload) does to a
/// session: whether it goes on, and the copy of the world afterwards. An
/// empty body and a rejection end the session. Any other body lets it go
/// on: a frame that applies changes the copy, anything else leaves it as it
/// was.
pub open spec fn received(before: MirrorView, body: Seq<u8>) -> (bool, MirrorView) {
    if body.len() == 0 {
        (false, before)
    } else {
        match decode_body(body) {
            Ok(FrameView::ConnRejected) => (false, before),
            Ok(frame) => match before.apply(frame) {
                Ok(after) => (true, after),
                Err(_) => (true, before),
            },
            Err(_) => (true, before),
        }
    }
}

/// Handles the body of a received frame, type byte first. Returns whether
/// the session goes on.
pub fn read_packets(body: &[u8], context: &mut GameContext) -> (go_on: bool)
    ensures
        (go_on, final(context)@) == received(old(context)@, body@),
{
    if body.len() == 0 {
        return false;
    }
    match Frame::decode(body) {
        Err(_) => true,
        Ok(Frame::ConnRejected) => false,
        Ok(frame) => {
            let _ = apply_frame(context, &frame);
            true
        },
    }
}

/// The heading that a client announces when it wants to head `wanted`
/// while heading `current`: the wanted one, unless it is the current one or
/// its reverse.
pub open spec fn turn_of(current: Direction, wanted: Direction) -> Option<Direction> {
    if wanted != current && wanted != current.spec_opposite() {
        Some(wanted)
    } else {
        None
    }
}

/// The frame by which a client turns its snake.
pub fn direction_update(direction: Direction) -> (bytes: Vec<u8>)
    ensures
        bytes@ == (FrameView::DirectionUpdate { direction }).wire(),
{
    let frame = Frame::DirectionUpdate { direction };
    frame.encode_valid()
}

/// Decides whether a client announces a turn. It does when the heading it
/// wants differs from its current one and is not the reverse of it; the
/// frame to send is then returned with the new heading.
pub fn turn(current: Direction, wanted: Direction) -> (r: Option<(Direction, Vec<u8>)>)
    ensures
        match r {
            Some((direction, bytes)) => turn_of(current, wanted) == Some(direction) && bytes@ == (
                FrameView::DirectionUpdate { direction }
            ).wire(),
            None => turn_of(current, wanted) is None,
        },
{
    if wanted == current || wanted == current.opposite() {
        None
    } else {
        Some((wanted, direction_update(wanted)))
    }
}

} // verus!
