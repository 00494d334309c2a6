//! The rules of a session: who may join, what each event sends to whom.
//!
//! Nothing here touches a socket. The caller reads and writes; these
//! functions decide, from the world and the event, what changes and which
//! bytes go out.

use crate::frame::{
    decode_body, Cell, Frame, FrameError, FrameView, HeadRecord, SnakeRecord, SnakeRecordView,
};
use crate::packet::PacketType;
use crate::server::game::{GameContext, GameError, Snake, SnakeView, WorldView};
use crate::util::{Direction, Point};
use std::collections::HashMap;
use vstd::prelude::*;

verus! {

/// Number of connections that a server accepts unless told otherwise.
pub const MAX_PLAYERS: usize = 8;

/// Port on which a server listens unless told otherwise.
pub const PORT: u16 = 14300;

/// Milliseconds between two ticks.
pub const TICK_MILLIS: u64 = 50;

/// The cell that stands for a point on the wire.
pub open spec fn cell_of(p: Point) -> Cell {
    Cell { x: p.0 as u8, y: p.1 as u8 }
}

/// The record that stands for a snake on the wire.
pub open spec fn record_of(id: u8, s: SnakeView) -> SnakeRecordView {
    SnakeRecordView {
        id,
        body: Seq::new(s.body.len(), |i: int| cell_of(s.body[i])),
        head: cell_of(s.head),
    }
}

/// The records of the snakes with an id below `n`, in ascending order of id.
pub open spec fn records_below(w: WorldView, n: nat) -> Seq<SnakeRecordView>
    decreases n,
{
    if n == 0 {
        Seq::<SnakeRecordView>::empty()
    } else {
        let id = (n - 1) as u8;
        if w.snakes.contains_key(id) {
            records_below(w, (n - 1) as nat).push(record_of(id, w.snakes[id]))
        } else {
            records_below(w, (n - 1) as nat)
        }
    }
}

/// The heads of the snakes with an id below `n`, in ascending order of id.
pub open spec fn heads_below(w: WorldView, n: nat) -> Seq<HeadRecord>
    decreases n,
{
    if n == 0 {
        Seq::<HeadRecord>::empty()
    } else {
        let id = (n - 1) as u8;
        if w.snakes.contains_key(id) {
            heads_below(w, (n - 1) as nat).push(HeadRecord { id, head: cell_of(w.snakes[id].head) })
        } else {
            heads_below(w, (n - 1) as nat)
        }
    }
}

/// The frame that tells the client `own_id` the whole world.
pub open spec fn info_of(w: WorldView, own_id: u8) -> FrameView {
    FrameView::Info { own_id, snakes: records_below(w, 256), food: cell_of(w.food) }
}

/// The frame that lists the head of every snake.
pub open spec fn head_update_of(w: WorldView) -> FrameView {
    FrameView::HeadUpdate { heads: heads_below(w, 256) }
}

/// The frame that announces the snake `s` under `id`.
pub open spec fn snake_connect_of(id: u8, s: SnakeView) -> FrameView {
    FrameView::SnakeConnect { snake: record_of(id, s) }
}

/// The frame that tells that `eater` ate and where the food is now.
pub open spec fn food_update_of(eater: u8, food: Point) -> FrameView {
    FrameView::FoodUpdate { eater, food: cell_of(food) }
}

/// No more heads are listed than there are ids below `n`.
pub proof fn lemma_heads_below_len(w: WorldView, n: nat)
    ensures
        heads_below(w, n).len() <= n,
    decreases n,
{
    if n > 0 {
        lemma_heads_below_len(w, (n - 1) as nat);
    }
}

/// In a well-formed world every listed record has a body and an id other
/// than the terminator.
pub proof fn lemma_records_below_wf(w: WorldView, n: nat)
    requires
        w.wf(),
        n <= 256,
    ensures
        forall|i: int|
            0 <= i < records_below(w, n).len() ==> {
                &&& (#[trigger] records_below(w, n)[i]).body.len() >= 1
                &&& 1 <= records_below(w, n)[i].id <= 254
            },
        records_below(w, n).len() <= n,
    decreases n,
{
    if n > 0 {
        lemma_records_below_wf(w, (n - 1) as nat);
    }
}

/// Converts a point of the board to its wire form.
pub fn cell(p: Point) -> (c: Cell)
    requires
        p.on_board(),
    ensures
        c == cell_of(p),
{
    Cell { x: p.0 as u8, y: p.1 as u8 }
}

/// Converts a snake to its wire form.
pub fn record(id: u8, snake: &Snake) -> (r: SnakeRecord)
    requires
        snake@.wf(),
    ensures
        r@ == record_of(id, snake@),
{
    let points = snake.body();
    let mut body: Vec<Cell> = Vec::new();
    let mut i: usize = 0;
    while i < points.len()
        invariant
            i <= points@.len(),
            points@ == snake@.body,
            snake@.wf(),
            body@.len() == i,
            forall|k: int| 0 <= k < i ==> body@[k] == cell_of(points@[k]),
        decreases points@.len() - i,
    {
        body.push(cell(points[i]));
        i += 1;
    }
    let r = SnakeRecord { id, body, head: cell(snake.head()) };
    r
}

/// The frame that refuses a connection: the three bytes `01 00 07`.
pub fn conn_rejected() -> (bytes: Vec<u8>)
    ensures
        bytes@ == FrameView::ConnRejected.wire(),
        bytes@ == seq![1u8, 0u8, 7u8],
{
    let frame = Frame::ConnRejected;
    let bytes = frame.encode_valid();
    bytes
}

/// The frame that tells every client that the snake `snake_id` left.
pub fn snake_disconnect(snake_id: u8) -> (bytes: Vec<u8>)
    ensures
        bytes@ == (FrameView::SnakeDisconnect { id: snake_id }).wire(),
{
    let frame = Frame::SnakeDisconnect { id: snake_id };
    frame.encode_valid()
}

/// The frame that tells every client that `eater` ate and where the food is
/// now.
pub fn food_update(context: &GameContext, eater: u8) -> (bytes: Vec<u8>)
    requires
        context.wf(),
    ensures
        bytes@ == food_update_of(eater, context@.food).wire(),
{
    let frame = Frame::FoodUpdate { eater, food: cell(context.food()) };
    frame.encode_valid()
}

/// The frame that lists the id and head of every snake of the world, in
/// ascending order of id.
pub fn head_update(context: &GameContext) -> (bytes: Vec<u8>)
    requires
        context.wf(),
    ensures
        bytes@ == head_update_of(context@).wire(),
{
    let mut heads: Vec<HeadRecord> = Vec::new();
    let mut i: usize = 0;
    while i < 256
        invariant
            i <= 256,
            context.wf(),
            heads@ == heads_below(context@, i as nat),
        decreases 256 - i,
    {
        let id = i as u8;
        match context.snake(id) {
            Some(snake) => {
                heads.push(HeadRecord { id, head: cell(snake.head()) });
            },
            None => {},
        }
        i += 1;
    }
    let frame = Frame::HeadUpdate { heads };
    proof {
        lemma_heads_below_len(context@, 256);
        crate::frame_lemmas::lemma_parse_heads(heads_below(context@, 256));
    }
    frame.encode_valid()
}

/// The frame that announces the snake `snake` under `snake_id` to the
/// clients that were there before it. Refused when the snake is too long
/// for a frame.
pub fn broadcast_snake(snake_id: u8, snake: &Snake) -> (r: Result<Vec<u8>, FrameError>)
    requires
        snake@.wf(),
    ensures
        match r {
            Ok(bytes) => snake_connect_of(snake_id, snake@).valid() && bytes@ == snake_connect_of(
                snake_id,
                snake@,
            ).wire(),
            Err(e) => e == FrameError::Unencodable && !snake_connect_of(snake_id, snake@).valid(),
        },
{
    let frame = Frame::SnakeConnect { snake: record(snake_id, snake) };
    frame.encode()
}

/// The frame that tells the client `snake_id` the whole world: its own id,
/// every snake in ascending order of id, and the food. Refused when the
/// world is too large for a frame.
pub fn send_fullstate(snake_id: u8, context: &GameContext) -> (r: Result<Vec<u8>, FrameError>)
    requires
        context.wf(),
    ensures
        match r {
            Ok(bytes) => info_of(context@, snake_id).valid() && bytes@ == info_of(
                context@,
                snake_id,
            ).wire(),
            Err(e) => e == FrameError::Unencodable && !info_of(context@, snake_id).valid(),
        },
{
    let mut snakes: Vec<SnakeRecord> = Vec::new();
    let mut i: usize = 0;
    assert(crate::frame::records_view(snakes@) =~= records_below(context@, 0));
    while i < 256
        invariant
            i <= 256,
            context.wf(),
            crate::frame::records_view(snakes@) == records_below(context@, i as nat),
        decreases 256 - i,
    {
        let id = i as u8;
        let ghost before = crate::frame::records_view(snakes@);
        match context.snake(id) {
            Some(snake) => {
                let r = record(id, snake);
                snakes.push(r);
                assert(crate::frame::records_view(snakes@) =~= before.push(r@));
            },
            None => {},
        }
        i += 1;
    }
    let frame = Frame::Info { own_id: snake_id, snakes, food: cell(context.food()) };
    frame.encode()
}

/// Why an event of a session was refused.
#[derive(Clone, Copy, Debug, PartialEq, Eq, Structural)]
pub enum SessionError {
    /// The world refused.
    Game(GameError),
    /// A frame could not be decoded or encoded.
    Frame(FrameError),
    /// The frame is of a kind that a client does not send.
    UnexpectedType(PacketType),
    /// The world holds no snake under this id.
    UnknownSnake(u8),
}

/// The live connections: a handle under each connection id. The ids lie in
/// `1..=254`.
pub struct Registry<H> {
    clients: HashMap<u8, H>,
    max_players: usize,
}

impl<H> Registry<H> {
    /// The handle under each connection id.
    pub closed spec fn clients(&self) -> Map<u8, H> {
        self.clients@
    }

    /// The number of connections from which on newcomers are refused.
    pub closed spec fn max_players(&self) -> nat {
        self.max_players as nat
    }

    /// Every id lies in `1..=254`.
    pub open spec fn wf(&self) -> bool {
        forall|id: u8| #[trigger] self.clients().contains_key(id) ==> 1 <= id <= 254
    }

    /// `id` is the lowest id in `1..=254` that no connection has.
    pub open spec fn is_lowest_unused(&self, id: u8) -> bool {
        &&& 1 <= id <= 254
        &&& !self.clients().contains_key(id)
        &&& forall|j: u8| 1 <= j < id ==> #[trigger] self.clients().contains_key(j)
    }

    /// Every id in `1..=254` has a connection.
    pub open spec fn all_used(&self) -> bool {
        forall|j: u8| 1 <= j <= 254 ==> #[trigger] self.clients().contains_key(j)
    }

    /// No further connection is accepted: the maximum is reached, or no id
    /// is left.
    pub open spec fn is_full(&self) -> bool {
        self.clients().len() >= self.max_players() || self.all_used()
    }

    /// An empty registry that accepts up to `max_players` connections.
    pub fn new(max_players: usize) -> (r: Self)
        ensures
            r.wf(),
            r.clients() == Map::<u8, H>::empty(),
            r.max_players() == max_players,
    {
        Registry { clients: HashMap::new(), max_players }
    }

    /// Number of connections.
    pub fn len(&self) -> (n: usize)
        ensures
            n == self.clients().len(),
    {
        self.clients.len()
    }

    /// Tells whether `id` has a connection.
    pub fn contains(&self, id: u8) -> (r: bool)
        ensures
            r == self.clients().contains_key(id),
    {
        self.clients.contains_key(&id)
    }

    /// The handle of the connection `id`, if there is one.
    pub fn get(&self, id: u8) -> (r: Option<&H>)
        ensures
            r is Some <==> self.clients().contains_key(id),
            r is Some ==> *r->0 == self.clients()[id],
    {
        self.clients.get(&id)
    }

    /// The ids of the connections, in ascending order.
    pub fn ids(&self) -> (ids: Vec<u8>)
        ensures
            forall|i: int, j: int| 0 <= i < j < ids@.len() ==> ids@[i] < ids@[j],
            forall|id: u8| ids@.contains(id) <==> self.clients().contains_key(id),
    {
        let mut ids: Vec<u8> = Vec::new();
        let mut i: usize = 0;
        while i < 256
            invariant
                i <= 256,
                forall|a: int, b: int| 0 <= a < b < ids@.len() ==> ids@[a] < ids@[b],
                forall|a: int| 0 <= a < ids@.len() ==> ids@[a] < i,
                forall|id: u8| ids@.contains(id) <==> id < i && self.clients().contains_key(id),
            decreases 256 - i,
        {
            let id = i as u8;
            let ghost before = ids@;
            let present = self.clients.contains_key(&id);
            if present {
                ids.push(id);
            }
            assert forall|x: u8| ids@.contains(x) <==> x < i + 1 && self.clients().contains_key(
                x,
            ) by {
                if before.contains(x) {
                    let k = choose|k: int| 0 <= k < before.len() && before[k] == x;
                    assert(ids@[k] == x);
                }
                if x == id && present {
                    assert(ids@[before.len() as int] == x);
                }
            }
            i += 1;
        }
        ids
    }

    /// The ids of the connections other than `id`, in ascending order: those
    /// that are told when the connection `id` joins.
    pub fn others(&self, id: u8) -> (ids: Vec<u8>)
        ensures
            forall|i: int, j: int| 0 <= i < j < ids@.len() ==> ids@[i] < ids@[j],
            forall|other: u8|
                ids@.contains(other) <==> other != id && self.clients().contains_key(other),
    {
        let mut ids: Vec<u8> = Vec::new();
        let mut i: usize = 0;
        while i < 256
            invariant
                i <= 256,
                forall|a: int, b: int| 0 <= a < b < ids@.len() ==> ids@[a] < ids@[b],
                forall|a: int| 0 <= a < ids@.len() ==> ids@[a] < i,
                forall|other: u8|
                    ids@.contains(other) <==> other < i && other != id
                        && self.clients().contains_key(other),
            decreases 256 - i,
        {
            let other = i as u8;
            let ghost before = ids@;
            let listed = other != id && self.clients.contains_key(&other);
            if listed {
                ids.push(other);
            }
            assert forall|x: u8|
                ids@.contains(x) <==> x < i + 1 && x != id && self.clients().contains_key(x) by {
                if before.contains(x) {
                    let k = choose|k: int| 0 <= k < before.len() && before[k] == x;
                    assert(ids@[k] == x);
                }
                if x == other && listed {
                    assert(ids@[before.len() as int] == x);
                }
            }
            i += 1;
        }
        ids
    }

    /// The lowest id in `1..=254` that no connection has; `None` when every
    /// one of them has a connection.
    pub fn lowest_unused(&self) -> (r: Option<u8>)
        ensures
            match r {
                Some(id) => self.is_lowest_unused(id),
                None => self.all_used(),
            },
    {
        let mut id: u8 = 1;
        while id < 255
            invariant
                1 <= id <= 255,
                forall|j: u8| 1 <= j < id ==> #[trigger] self.clients().contains_key(j),
            decreases 255 - id,
        {
            if !self.clients.contains_key(&id) {
                return Some(id);
            }
            id += 1;
        }
        None
    }

    /// Puts a connection under `id`, and hands back the handle that was
    /// there before, if any. An id outside `1..=254` is refused, and the
    /// handle comes back as the error.
    pub fn insert(&mut self, id: u8, handle: H) -> (r: Result<Option<H>, H>)
        requires
            old(self).wf(),
        ensures
            final(self).wf(),
            final(self).max_players() == old(self).max_players(),
            match r {
                Ok(previous) => {
                    &&& 1 <= id <= 254
                    &&& final(self).clients() == old(self).clients().insert(id, handle)
                    &&& previous is Some <==> old(self).clients().contains_key(id)
                    &&& previous is Some ==> previous->0 == old(self).clients()[id]
                },
                Err(back) => {
                    &&& !(1 <= id <= 254)
                    &&& back == handle
                    &&& final(self).clients() == old(self).clients()
                },
            },
    {
        if id == 0 || id == 255 {
            return Err(handle);
        }
        let previous = self.clients.insert(id, handle);
        assert forall|j: u8| #[trigger] self.clients().contains_key(j) implies 1 <= j <= 254 by {
            if j != id {
                assert(old(self).clients().contains_key(j));
            }
        }
        Ok(previous)
    }

    /// Removes the connection `id`, and hands back its handle, if there was
    /// one.
    pub fn remove(&mut self, id: u8) -> (r: Option<H>)
        requires
            old(self).wf(),
        ensures
            final(self).wf(),
            final(self).max_players() == old(self).max_players(),
            final(self).clients() == old(self).clients().remove(id),
            r is Some <==> old(self).clients().contains_key(id),
            r is Some ==> r->0 == old(self).clients()[id],
    {
        let handle = self.clients.remove(&id);
        assert forall|j: u8| #[trigger] self.clients().contains_key(j) implies 1 <= j <= 254 by {
            assert(old(self).clients().contains_key(j));
        }
        handle
    }
}

/// What becomes of a connection that asks to join.
#[derive(Clone, Copy, Debug, PartialEq, Eq, Structural)]
pub enum Admission {
    /// It joins under this id.
    Admitted(u8),
    /// It is refused: it gets the bare rejection frame and is dropped.
    Rejected,
}

/// Decides on a new connection. It is refused when the registry holds its
/// maximum, or when no id is left; otherwise it gets the lowest unused id in
/// `1..=254`.
pub fn accept<H>(clients: &Registry<H>) -> (a: Admission)
    ensures
        match a {
            Admission::Admitted(id) => !clients.is_full() && clients.is_lowest_unused(id),
            Admission::Rejected => clients.is_full(),
        },
{
    if clients.len() >= clients.max_players {
        return Admission::Rejected;
    }
    match clients.lowest_unused() {
        Some(id) => {
            Admission::Admitted(id)
        },
        None => Admission::Rejected,
    }
}

/// The frames that go out when a snake joins.
pub struct Welcome {
    /// `SnakeConnect`, for every client that was there before.
    pub announce: Vec<u8>,
    /// `Info`, for the client that joins.
    pub info: Vec<u8>,
}

/// The world `next` is the world `prev` with a new snake under `id`, placed
/// where the two cells it needs were free.
pub open spec fn joined(prev: WorldView, next: WorldView, id: u8) -> bool {
    exists|head: Point| #[trigger]
        prev.can_spawn_at(head) && next == prev.with_snake(id, WorldView::spawned(head))
}

/// A connection joins the game under `snake_id`: its snake is spawned, and
/// the frames that announce it to the others and that tell it the world are
/// made, in that order, so that the world it is told holds its own snake.
/// Fails, with the world as it was, when the id is outside `1..=254` or no
/// place is left for a snake; fails, with no snake under the id, when the
/// world is too large for a frame.
pub fn join(context: &mut GameContext, snake_id: u8) -> (r: Result<Welcome, SessionError>)
    requires
        old(context).wf(),
    ensures
        final(context).wf(),
        old(context)@.food_clear() ==> final(context)@.food_clear(),
        match r {
            Ok(welcome) => {
                &&& joined(old(context)@, final(context)@, snake_id)
                &&& welcome.announce@ == snake_connect_of(
                    snake_id,
                    final(context)@.snakes[snake_id],
                ).wire()
                &&& welcome.info@ == info_of(final(context)@, snake_id).wire()
                &&& info_of(final(context)@, snake_id).valid()
            },
            Err(SessionError::Game(e)) => {
                &&& final(context)@ == old(context)@
                &&& match e {
                    GameError::InvalidId => !(1 <= snake_id <= 254),
                    GameError::NoSpace => 1 <= snake_id <= 254 && forall|head: Point|
                        !old(context)@.can_spawn_at(head),
                    GameError::NotFree => false,
                }
            },
            Err(SessionError::Frame(e)) => {
                &&& e == FrameError::Unencodable
                &&& final(context)@ == old(context)@.without_snake(snake_id)
                &&& exists|mid: WorldView| #[trigger]
                    joined(old(context)@, mid, snake_id) && !info_of(mid, snake_id).valid()
            },
            Err(_) => false,
        },
{
    match context.spawn_snake(snake_id) {
        Err(e) => {
            return Err(SessionError::Game(e));
        },
        Ok(()) => {},
    }
    let ghost mid = context@;
    let announce = match context.snake(snake_id) {
        Some(snake) => broadcast_snake(snake_id, snake),
        None => Err(FrameError::Unencodable),
    };
    let info = send_fullstate(snake_id, context);
    match (announce, info) {
        (Ok(announce), Ok(info)) => Ok(Welcome { announce, info }),
        _ => {
            proof {
                let head = choose|head: Point| #[trigger]
                    old(context)@.can_spawn_at(head) && mid == old(context)@.with_snake(
                        snake_id,
                        WorldView::spawned(head),
                    );
                lemma_new_snake_fits(snake_id, head);
                assert(joined(old(context)@, mid, snake_id));
            }
            context.kill_snake(snake_id);
            Err(SessionError::Frame(FrameError::Unencodable))
        },
    }
}

/// The frame that announces a newly spawned snake can always travel.
pub proof fn lemma_new_snake_fits(id: u8, head: Point)
    ensures
        snake_connect_of(id, WorldView::spawned(head)).valid(),
{
    let record = record_of(id, WorldView::spawned(head));
    crate::frame_lemmas::lemma_shape_len(record);
}

/// Applies what a client sent: `body` is a frame body, type byte first. A
/// `DirectionUpdate` sets the heading of the client's snake, whatever it
/// was. Anything else changes nothing and is reported: a body that cannot
/// be decoded, a frame of another kind, a client without a snake.
pub fn client_read(context: &mut GameContext, snake_id: u8, body: &[u8]) -> (r: Result<
    Direction,
    SessionError,
>)
    requires
        old(context).wf(),
    ensures
        final(context).wf(),
        old(context)@.food_clear() ==> final(context)@.food_clear(),
        match r {
            Ok(direction) => {
                &&& decode_body(body@) == Ok::<FrameView, FrameError>(
                    FrameView::DirectionUpdate { direction },
                )
                &&& old(context)@.snakes.contains_key(snake_id)
                &&& final(context)@ == old(context)@.with_snake(
                    snake_id,
                    old(context)@.snakes[snake_id].turned(direction),
                )
            },
            Err(e) => {
                &&& final(context)@ == old(context)@
                &&& match decode_body(body@) {
                    Err(cause) => e == SessionError::Frame(cause),
                    Ok(FrameView::DirectionUpdate { .. }) => e == SessionError::UnknownSnake(
                        snake_id,
                    ) && !old(context)@.snakes.contains_key(snake_id),
                    Ok(frame) => e == SessionError::UnexpectedType(frame.kind()),
                }
            },
        },
{
    match Frame::decode(body) {
        Err(cause) => Err(SessionError::Frame(cause)),
        Ok(Frame::DirectionUpdate { direction }) => {
            if context.change_direction(snake_id, direction) {
                Ok(direction)
            } else {
                Err(SessionError::UnknownSnake(snake_id))
            }
        },
        Ok(frame) => Err(SessionError::UnexpectedType(frame.packet_type())),
    }
}

/// A connection is gone: it leaves the registry, its snake leaves the world,
/// and the frame that tells the remaining clients is made. Returns the
/// handle that the registry held, if any, and that frame.
pub fn disconnect_client<H>(
    snake_id: u8,
    context: &mut GameContext,
    clients: &mut Registry<H>,
) -> (r: (Option<H>, Vec<u8>))
    requires
        old(context).wf(),
        old(clients).wf(),
    ensures
        final(context).wf(),
        final(clients).wf(),
        final(context)@ == old(context)@.without_snake(snake_id),
        old(context)@.food_clear() ==> final(context)@.food_clear(),
        final(clients).clients() == old(clients).clients().remove(snake_id),
        final(clients).max_players() == old(clients).max_players(),
        r.0 is Some <==> old(clients).clients().contains_key(snake_id),
        r.0 is Some ==> r.0->0 == old(clients).clients()[snake_id],
        r.1@ == (FrameView::SnakeDisconnect { id: snake_id }).wire(),
{
    let handle = clients.remove(snake_id);
    context.kill_snake(snake_id);
    (handle, snake_disconnect(snake_id))
}

/// What a tick reports and sends.
pub struct Tick {
    /// The snake that ate, if any.
    pub eater: Option<u8>,
    /// The snakes that were killed, if any: their connections are to be
    /// shut down.
    pub killed: Option<Vec<u8>>,
    /// `FoodUpdate`, for every client, when a snake ate.
    pub food_update: Option<Vec<u8>>,
    /// `HeadUpdate`, for every client.
    pub head_update: Vec<u8>,
}

/// One period of the game loop: the world takes one tick, and the frames
/// that tell the clients about it are made.
pub fn tick(context: &mut GameContext) -> (t: Tick)
    requires
        old(context).wf(),
    ensures
        final(context).wf(),
        old(context)@.ticks_to(final(context)@, t.eater, t.killed),
        old(context)@.food_clear() && (t.eater is None
            || old(context)@.after_move().has_vacant_cell()) ==> final(context)@.food_clear(),
        match t.eater {
            Some(eater) => t.food_update is Some && t.food_update->0@ == food_update_of(
                eater,
                final(context)@.food,
            ).wire(),
            None => t.food_update is None,
        },
        t.head_update@ == head_update_of(final(context)@).wire(),
{
    let (eater, killed) = context.update();
    let food_update = match eater {
        Some(id) => Some(food_update(context, id)),
        None => None,
    };
    let head_update = head_update(context);
    Tick { eater, killed, food_update, head_update }
}

} // verus!
