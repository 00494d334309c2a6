//! The seven frames of the protocol as values, and their payload grammar.
//!
//! | kind | payload |
//! |---|---|
//! | `Info` | own id; per snake: id, segment count (`u16`, body + 1), body cells, head; `0xFF`; food |
//! | `FoodUpdate` | eater id; food |
//! | `DirectionUpdate` | direction code |
//! | `HeadUpdate` | per snake: id, head |
//! | `SnakeConnect` | id; segment count; body cells; head |
//! | `SnakeDisconnect` | id |
//! | `ConnRejected` | nothing |
//!
//! A cell is two bytes, `x` then `y`.

use crate::packet::{
    frame_bytes, from_le16, le16, PacketBuilder, PacketError, PacketType, ReadablePacket,
};
use crate::util::Direction;
use vstd::prelude::*;

verus! {

/// The id byte that ends the list of snakes in an `Info` payload.
pub const TERMINATOR: u8 = 0xFF;

/// Greatest number of body cells that a segment count can express.
pub const MAX_BODY: usize = 65534;

/// Greatest payload length that the length prefix can express.
pub const MAX_PAYLOAD: usize = 65534;

/// A cell as it travels: one byte for each coordinate.
#[derive(Clone, Copy, Debug, PartialEq, Eq, Structural)]
pub struct Cell {
    pub x: u8,
    pub y: u8,
}

/// A snake as it travels: id, body cells from the tail on, head.
#[derive(Clone, Debug, PartialEq, Eq)]
pub struct SnakeRecord {
    pub id: u8,
    pub body: Vec<Cell>,
    pub head: Cell,
}

/// What a [`SnakeRecord`] holds.
#[verifier::ext_equal]
pub struct SnakeRecordView {
    pub id: u8,
    pub body: Seq<Cell>,
    pub head: Cell,
}

impl View for SnakeRecord {
    type V = SnakeRecordView;

    open spec fn view(&self) -> SnakeRecordView {
        SnakeRecordView { id: self.id, body: self.body@, head: self.head }
    }
}

/// The id and head of one snake, as listed in a `HeadUpdate`.
#[derive(Clone, Copy, Debug, PartialEq, Eq, Structural)]
pub struct HeadRecord {
    pub id: u8,
    pub head: Cell,
}

/// A frame of the protocol.
#[derive(Clone, Debug, PartialEq, Eq)]
pub enum Frame {
    /// The whole world, sent to a client that joins.
    Info { own_id: u8, snakes: Vec<SnakeRecord>, food: Cell },
    /// A snake ate; the food has moved.
    FoodUpdate { eater: u8, food: Cell },
    /// A client turns its snake.
    DirectionUpdate { direction: Direction },
    /// The new head of every snake after a tick.
    HeadUpdate { heads: Vec<HeadRecord> },
    /// A snake joined.
    SnakeConnect { snake: SnakeRecord },
    /// A snake left.
    SnakeDisconnect { id: u8 },
    /// The server is full.
    ConnRejected,
}

/// What a [`Frame`] holds.
#[verifier::ext_equal]
pub enum FrameView {
    Info { own_id: u8, snakes: Seq<SnakeRecordView>, food: Cell },
    FoodUpdate { eater: u8, food: Cell },
    DirectionUpdate { direction: Direction },
    HeadUpdate { heads: Seq<HeadRecord> },
    SnakeConnect { snake: SnakeRecordView },
    SnakeDisconnect { id: u8 },
    ConnRejected,
}

/// The views of a list of records.
pub open spec fn records_view(records: Seq<SnakeRecord>) -> Seq<SnakeRecordView> {
    Seq::new(records.len(), |i: int| records[i]@)
}

impl View for Frame {
    type V = FrameView;

    open spec fn view(&self) -> FrameView {
        match *self {
            Frame::Info { own_id, snakes, food } => FrameView::Info {
                own_id,
                snakes: records_view(snakes@),
                food,
            },
            Frame::FoodUpdate { eater, food } => FrameView::FoodUpdate { eater, food },
            Frame::DirectionUpdate { direction } => FrameView::DirectionUpdate { direction },
            Frame::HeadUpdate { heads } => FrameView::HeadUpdate { heads: heads@ },
            Frame::SnakeConnect { snake } => FrameView::SnakeConnect { snake: snake@ },
            Frame::SnakeDisconnect { id } => FrameView::SnakeDisconnect { id },
            Frame::ConnRejected => FrameView::ConnRejected,
        }
    }
}

/// The bytes of a list of cells: `x` and `y` of each cell in turn.
pub open spec fn cells_bytes(cells: Seq<Cell>) -> Seq<u8> {
    Seq::new(
        2 * cells.len(),
        |i: int|
            if i % 2 == 0 {
                cells[i / 2].x
            } else {
                cells[i / 2].y
            },
    )
}

/// The bytes of a list of heads: id, `x` and `y` of each in turn.
pub open spec fn heads_bytes(heads: Seq<HeadRecord>) -> Seq<u8> {
    Seq::new(
        3 * heads.len(),
        |i: int|
            if i % 3 == 0 {
                heads[i / 3].id
            } else if i % 3 == 1 {
                heads[i / 3].head.x
            } else {
                heads[i / 3].head.y
            },
    )
}

impl SnakeRecordView {
    /// The record can travel: it has a body, and its segment count fits in
    /// 16 bits.
    pub open spec fn valid(self) -> bool {
        1 <= self.body.len() <= MAX_BODY
    }

    /// The bytes after the id: segment count, body cells, head.
    pub open spec fn shape_bytes(self) -> Seq<u8> {
        le16((self.body.len() + 1) as u16) + cells_bytes(self.body) + seq![self.head.x, self.head.y]
    }

    /// The bytes of the record: id, segment count, body cells, head.
    pub open spec fn bytes(self) -> Seq<u8> {
        seq![self.id] + self.shape_bytes()
    }
}

/// The bytes of a list of records, one after the other.
pub open spec fn records_bytes(records: Seq<SnakeRecordView>) -> Seq<u8>
    decreases records.len(),
{
    if records.len() == 0 {
        Seq::<u8>::empty()
    } else {
        records[0].bytes() + records_bytes(records.skip(1))
    }
}

impl FrameView {
    /// The kind of the frame.
    pub open spec fn kind(self) -> PacketType {
        match self {
            FrameView::Info { .. } => PacketType::Info,
            FrameView::FoodUpdate { .. } => PacketType::FoodUpdate,
            FrameView::DirectionUpdate { .. } => PacketType::DirectionUpdate,
            FrameView::HeadUpdate { .. } => PacketType::HeadUpdate,
            FrameView::SnakeConnect { .. } => PacketType::SnakeConnect,
            FrameView::SnakeDisconnect { .. } => PacketType::SnakeDisconnect,
            FrameView::ConnRejected => PacketType::ConnRejected,
        }
    }

    /// The payload of the frame.
    pub open spec fn payload(self) -> Seq<u8> {
        match self {
            FrameView::Info { own_id, snakes, food } => seq![own_id] + records_bytes(snakes) + seq![
                TERMINATOR,
                food.x,
                food.y,
            ],
            FrameView::FoodUpdate { eater, food } => seq![eater, food.x, food.y],
            FrameView::DirectionUpdate { direction } => seq![direction.spec_code()],
            FrameView::HeadUpdate { heads } => heads_bytes(heads),
            FrameView::SnakeConnect { snake } => snake.bytes(),
            FrameView::SnakeDisconnect { id } => seq![id],
            FrameView::ConnRejected => Seq::<u8>::empty(),
        }
    }

    /// Every snake record in the frame can travel, and no snake listed in an
    /// `Info` frame has the id that ends the list.
    pub open spec fn records_valid(self) -> bool {
        match self {
            FrameView::Info { snakes, .. } => forall|i: int|
                0 <= i < snakes.len() ==> (#[trigger] snakes[i]).valid() && snakes[i].id
                    != TERMINATOR,
            FrameView::SnakeConnect { snake } => snake.valid(),
            _ => true,
        }
    }

    /// The frame can travel: its records are valid and its payload is short
    /// enough for the length prefix.
    pub open spec fn valid(self) -> bool {
        self.records_valid() && self.payload().len() <= MAX_PAYLOAD
    }

    /// The frame as it travels: length prefix, type byte, payload.
    pub open spec fn wire(self) -> Seq<u8> {
        frame_bytes(self.kind(), self.payload())
    }
}

/// Why a frame was refused.
#[derive(Clone, Copy, Debug, PartialEq, Eq, Structural)]
pub enum FrameError {
    /// The body holds no type byte.
    Empty,
    /// The type byte names none of the seven kinds.
    UnknownType(u8),
    /// The payload does not follow the grammar of its kind.
    Malformed,
    /// The frame cannot travel: a record is not valid, or the payload is too
    /// long for the length prefix.
    Unencodable,
}

/// Appending a record to a list appends its bytes.
pub proof fn lemma_records_bytes_push(records: Seq<SnakeRecordView>, last: SnakeRecordView)
    ensures
        records_bytes(records.push(last)) == records_bytes(records) + last.bytes(),
    decreases records.len(),
{
    if records.len() == 0 {
        assert(records.push(last).skip(1) =~= Seq::<SnakeRecordView>::empty());
        assert(records_bytes(records.push(last).skip(1)) =~= Seq::<u8>::empty());
        assert(records_bytes(records.push(last)) =~= last.bytes());
    } else {
        lemma_records_bytes_push(records.skip(1), last);
        assert(records.push(last).skip(1) =~= records.skip(1).push(last));
        assert(records_bytes(records.push(last)) =~= records_bytes(records) + last.bytes());
    }
}

/// Appending a cell to a list appends its two bytes.
pub proof fn lemma_cells_bytes_push(cells: Seq<Cell>, last: Cell)
    ensures
        cells_bytes(cells.push(last)) == cells_bytes(cells) + seq![last.x, last.y],
{
    assert(cells_bytes(cells.push(last)) =~= cells_bytes(cells) + seq![last.x, last.y]);
}

/// Appending a head to a list appends its three bytes.
pub proof fn lemma_heads_bytes_push(heads: Seq<HeadRecord>, last: HeadRecord)
    ensures
        heads_bytes(heads.push(last)) == heads_bytes(heads) + seq![last.id, last.head.x, last.head.y],
{
    assert(heads_bytes(heads.push(last)) =~= heads_bytes(heads) + seq![
        last.id,
        last.head.x,
        last.head.y,
    ]);
}

/// Writes segment count, body cells and head of a record.
fn write_shape(builder: &mut PacketBuilder, snake: &SnakeRecord)
    requires
        snake@.valid(),
    ensures
        final(builder).kind() == old(builder).kind(),
        final(builder).payload() == old(builder).payload() + snake@.shape_bytes(),
{
    let n = snake.body.len();
    builder.write_u16_le((n + 1) as u16);
    let ghost start = builder.payload();
    let mut i: usize = 0;
    while i < n
        invariant
            n == snake.body@.len(),
            i <= n,
            builder.kind() == old(builder).kind(),
            builder.payload() == start + cells_bytes(snake.body@.subrange(0, i as int)),
        decreases n - i,
    {
        let cell = snake.body[i];
        builder.write(cell.x);
        builder.write(cell.y);
        proof {
            lemma_cells_bytes_push(snake.body@.subrange(0, i as int), cell);
        }
        i += 1;
    }
    builder.write(snake.head.x);
    builder.write(snake.head.y);
}

impl Frame {
    /// The kind of the frame.
    pub fn packet_type(&self) -> (kind: PacketType)
        ensures
            kind == self@.kind(),
    {
        match self {
            Frame::Info { .. } => PacketType::Info,
            Frame::FoodUpdate { .. } => PacketType::FoodUpdate,
            Frame::DirectionUpdate { .. } => PacketType::DirectionUpdate,
            Frame::HeadUpdate { .. } => PacketType::HeadUpdate,
            Frame::SnakeConnect { .. } => PacketType::SnakeConnect,
            Frame::SnakeDisconnect { .. } => PacketType::SnakeDisconnect,
            Frame::ConnRejected => PacketType::ConnRejected,
        }
    }

    /// Collects the payload of the frame; `None` when a record is not valid.
    fn write_payload(&self) -> (r: Option<PacketBuilder>)
        ensures
            r is Some <==> self@.records_valid(),
            r is Some ==> r->0.kind() == self@.kind() && r->0.payload() == self@.payload(),
    {
        let mut builder = PacketBuilder::new(self.packet_type());
        match self {
            Frame::Info { own_id, snakes, food } => {
                builder.write(*own_id);
                let ghost views = records_view(snakes@);
                let mut i: usize = 0;
                while i < snakes.len()
                    invariant
                        i <= snakes@.len(),
                        views == records_view(snakes@),
                        self@ == (FrameView::Info { own_id: *own_id, snakes: views, food: *food }),
                        builder.kind() == PacketType::Info,
                        builder.payload() == seq![*own_id] + records_bytes(
                            views.subrange(0, i as int),
                        ),
                        forall|k: int|
                            0 <= k < i ==> (#[trigger] views[k]).valid() && views[k].id
                                != TERMINATOR,
                    decreases snakes@.len() - i,
                {
                    let snake = &snakes[i];
                    if snake.id == TERMINATOR || snake.body.len() == 0 || snake.body.len()
                        > MAX_BODY {
                        assert(self@->Info_snakes[i as int] == snake@);
                        return None;
                    }
                    builder.write(snake.id);
                    write_shape(&mut builder, snake);
                    proof {
                        lemma_records_bytes_push(views.subrange(0, i as int), snake@);
                        assert(views.subrange(0, i as int).push(snake@) =~= views.subrange(
                            0,
                            i + 1,
                        ));
                    }
                    i += 1;
                }
                assert(views.subrange(0, snakes@.len() as int) =~= views);
                builder.write(TERMINATOR);
                builder.write(food.x);
                builder.write(food.y);
            },
            Frame::FoodUpdate { eater, food } => {
                builder.write(*eater);
                builder.write(food.x);
                builder.write(food.y);
            },
            Frame::DirectionUpdate { direction } => {
                builder.write(direction.code());
            },
            Frame::HeadUpdate { heads } => {
                let mut i: usize = 0;
                while i < heads.len()
                    invariant
                        i <= heads@.len(),
                        builder.kind() == PacketType::HeadUpdate,
                        builder.payload() == heads_bytes(heads@.subrange(0, i as int)),
                    decreases heads@.len() - i,
                {
                    let h = heads[i];
                    builder.write(h.id);
                    builder.write(h.head.x);
                    builder.write(h.head.y);
                    proof {
                        lemma_heads_bytes_push(heads@.subrange(0, i as int), h);
                    }
                    i += 1;
                }
            },
            Frame::SnakeConnect { snake } => {
                if snake.body.len() == 0 || snake.body.len() > MAX_BODY {
                    return None;
                }
                builder.write(snake.id);
                write_shape(&mut builder, snake);
            },
            Frame::SnakeDisconnect { id } => {
                builder.write(*id);
            },
            Frame::ConnRejected => {},
        }
        Some(builder)
    }

    /// Encodes a frame that is known to be able to travel.
    pub(crate) fn encode_valid(&self) -> (bytes: Vec<u8>)
        requires
            self@.valid(),
        ensures
            bytes@ == self@.wire(),
    {
        match self.write_payload() {
            Some(builder) => builder.build(),
            None => Vec::new(),
        }
    }

    /// Encodes the frame: length prefix, type byte, payload. Refused when
    /// the frame cannot travel.
    pub fn encode(&self) -> (r: Result<Vec<u8>, FrameError>)
        ensures
            match r {
                Ok(bytes) => self@.valid() && bytes@ == self@.wire(),
                Err(e) => !self@.valid() && e == FrameError::Unencodable,
            },
    {
        match self.write_payload() {
            Some(builder) => {
                if builder.len() > MAX_PAYLOAD {
                    Err(FrameError::Unencodable)
                } else {
                    Ok(builder.build())
                }
            },
            None => Err(FrameError::Unencodable),
        }
    }
}

/// The `n` cells that start at `pos`.
pub open spec fn parse_cells(buf: Seq<u8>, pos: int, n: nat) -> Seq<Cell> {
    Seq::new(n, |k: int| Cell { x: buf[pos + 2 * k], y: buf[pos + 2 * k + 1] })
}

/// Reads segment count, body cells and head at `pos`; gives the record under
/// the id `id` and the position behind it. Fails when the bytes run out or
/// the count is below two.
pub open spec fn parse_shape(buf: Seq<u8>, pos: int, id: u8) -> Option<(SnakeRecordView, int)> {
    if pos < 0 || pos + 2 > buf.len() {
        None
    } else {
        let count = from_le16(buf[pos], buf[pos + 1]) as int;
        if count < 2 || pos + 2 + 2 * count > buf.len() {
            None
        } else {
            Some(
                (
                    SnakeRecordView {
                        id,
                        body: parse_cells(buf, pos + 2, (count - 1) as nat),
                        head: Cell { x: buf[pos + 2 * count], y: buf[pos + 2 * count + 1] },
                    },
                    pos + 2 + 2 * count,
                ),
            )
        }
    }
}

/// Reads records from `pos` up to the terminator; gives them and the
/// position behind the terminator.
pub open spec fn parse_records(buf: Seq<u8>, pos: int) -> Option<(Seq<SnakeRecordView>, int)>
    decreases buf.len() - pos,
{
    if pos < 0 || pos >= buf.len() {
        None
    } else if buf[pos] == TERMINATOR {
        Some((Seq::<SnakeRecordView>::empty(), pos + 1))
    } else {
        match parse_shape(buf, pos + 1, buf[pos]) {
            None => None,
            Some((record, next)) => match parse_records(buf, next) {
                None => None,
                Some((rest, end)) => Some((seq![record] + rest, end)),
            },
        }
    }
}

/// The heads that fill `buf` from `pos` to its end, three bytes each.
pub open spec fn parse_heads(buf: Seq<u8>, pos: int) -> Seq<HeadRecord> {
    Seq::new(
        ((buf.len() - pos) / 3) as nat,
        |k: int|
            HeadRecord {
                id: buf[pos + 3 * k],
                head: Cell { x: buf[pos + 3 * k + 1], y: buf[pos + 3 * k + 2] },
            },
    )
}

/// The frame of kind `kind` whose payload is `buf` from `pos` to its end;
/// `None` when those bytes do not follow the grammar of the kind exactly.
pub open spec fn parse_from(kind: PacketType, buf: Seq<u8>, pos: int) -> Option<FrameView> {
    let n = buf.len() - pos;
    if pos < 0 || n < 0 {
        None
    } else {
        match kind {
            PacketType::Info => if n < 1 {
                None
            } else {
                match parse_records(buf, pos + 1) {
                    None => None,
                    Some((snakes, end)) => if end + 2 == buf.len() {
                        Some(
                            FrameView::Info {
                                own_id: buf[pos],
                                snakes,
                                food: Cell { x: buf[end], y: buf[end + 1] },
                            },
                        )
                    } else {
                        None
                    },
                }
            },
            PacketType::FoodUpdate => if n == 3 {
                Some(
                    FrameView::FoodUpdate {
                        eater: buf[pos],
                        food: Cell { x: buf[pos + 1], y: buf[pos + 2] },
                    },
                )
            } else {
                None
            },
            PacketType::DirectionUpdate => if n == 1 {
                match Direction::spec_from_code(buf[pos]) {
                    Some(direction) => Some(FrameView::DirectionUpdate { direction }),
                    None => None,
                }
            } else {
                None
            },
            PacketType::HeadUpdate => if n % 3 == 0 {
                Some(FrameView::HeadUpdate { heads: parse_heads(buf, pos) })
            } else {
                None
            },
            PacketType::SnakeConnect => if n < 1 {
                None
            } else {
                match parse_shape(buf, pos + 1, buf[pos]) {
                    None => None,
                    Some((snake, end)) => if end == buf.len() {
                        Some(FrameView::SnakeConnect { snake })
                    } else {
                        None
                    },
                }
            },
            PacketType::SnakeDisconnect => if n == 1 {
                Some(FrameView::SnakeDisconnect { id: buf[pos] })
            } else {
                None
            },
            PacketType::ConnRejected => if n == 0 {
                Some(FrameView::ConnRejected)
            } else {
                None
            },
        }
    }
}

/// The frame that a body (type byte, then payload) stands for.
pub open spec fn decode_body(body: Seq<u8>) -> Result<FrameView, FrameError> {
    if body.len() == 0 {
        Err(FrameError::Empty)
    } else {
        match PacketType::spec_from_code(body[0]) {
            None => Err(FrameError::UnknownType(body[0])),
            Some(kind) => match parse_from(kind, body.skip(1), 0) {
                None => Err(FrameError::Malformed),
                Some(frame) => Ok(frame),
            },
        }
    }
}

/// `acc` followed by what a parse of the remaining records gave.
pub open spec fn prepend_records(
    acc: Seq<SnakeRecordView>,
    parsed: Option<(Seq<SnakeRecordView>, int)>,
) -> Option<(Seq<SnakeRecordView>, int)> {
    match parsed {
        None => None,
        Some((rest, end)) => Some((acc + rest, end)),
    }
}

/// Reads one cell.
fn read_cell(packet: &mut ReadablePacket) -> (cell: Cell)
    requires
        old(packet).wf(),
        old(packet).unread() >= 2,
    ensures
        final(packet).wf(),
        final(packet).payload() == old(packet).payload(),
        final(packet).kind() == old(packet).kind(),
        final(packet).cursor() == old(packet).cursor() + 2,
        cell.x == old(packet).payload()[old(packet).cursor() as int],
        cell.y == old(packet).payload()[old(packet).cursor() as int + 1],
{
    let x = packet.read();
    let y = packet.read();
    Cell { x, y }
}

/// Reads segment count, body cells and head of a record.
fn read_shape(packet: &mut ReadablePacket, id: u8) -> (r: Option<SnakeRecord>)
    requires
        old(packet).wf(),
    ensures
        final(packet).wf(),
        final(packet).payload() == old(packet).payload(),
        final(packet).kind() == old(packet).kind(),
        final(packet).cursor() >= old(packet).cursor(),
        match r {
            Some(record) => parse_shape(old(packet).payload(), old(packet).cursor() as int, id)
                == Some((record@, final(packet).cursor() as int)),
            None => parse_shape(old(packet).payload(), old(packet).cursor() as int, id) is None,
        },
{
    let ghost buf = packet.payload();
    let ghost pos = packet.cursor() as int;
    if packet.remaining() < 2 {
        return None;
    }
    let count = packet.read_u16_le();
    if count < 2 {
        return None;
    }
    let cells: usize = (count - 1) as usize;
    let left = packet.remaining();
    if left / 2 < count as usize {
        return None;
    }
    let mut body: Vec<Cell> = Vec::new();
    let mut i: usize = 0;
    while i < cells
        invariant
            i <= cells,
            cells == count - 1,
            packet.wf(),
            packet.payload() == buf,
            packet.kind() == old(packet).kind(),
            packet.cursor() == pos + 2 + 2 * i,
            pos + 2 + 2 * count <= buf.len(),
            body@ == parse_cells(buf, pos + 2, i as nat),
        decreases cells - i,
    {
        let cell = read_cell(packet);
        body.push(cell);
        assert(body@ =~= parse_cells(buf, pos + 2, (i + 1) as nat));
        i += 1;
    }
    let head = read_cell(packet);
    let record = SnakeRecord { id, body, head };
    proof {
        match parse_shape(buf, pos, id) {
            Some((parsed, _)) => {
                assert(record@ =~= parsed);
            },
            None => {},
        }
    }
    Some(record)
}

impl Frame {
    /// Reads the unread part of `packet` as the payload of its kind. Fails
    /// when those bytes do not follow the grammar of the kind exactly.
    pub fn parse(packet: &mut ReadablePacket) -> (r: Result<Frame, FrameError>)
        requires
            old(packet).wf(),
        ensures
            final(packet).wf(),
            final(packet).payload() == old(packet).payload(),
            final(packet).kind() == old(packet).kind(),
            match r {
                Ok(frame) => parse_from(
                    old(packet).kind(),
                    old(packet).payload(),
                    old(packet).cursor() as int,
                ) == Some(frame@),
                Err(e) => e == FrameError::Malformed && parse_from(
                    old(packet).kind(),
                    old(packet).payload(),
                    old(packet).cursor() as int,
                ) is None,
            },
    {
        let ghost buf = packet.payload();
        let ghost pos = packet.cursor() as int;
        let n = packet.remaining();
        match packet.packet_type() {
            PacketType::Info => {
                if n < 1 {
                    return Err(FrameError::Malformed);
                }
                let own_id = packet.read();
                let mut snakes: Vec<SnakeRecord> = Vec::new();
                let mut done = false;
                proof {
                    match parse_records(buf, pos + 1) {
                        Some((rest, _)) => {
                            assert(records_view(snakes@) + rest =~= rest);
                        },
                        None => {},
                    }
                }
                while !done
                    invariant
                        packet.wf(),
                        packet.payload() == buf,
                        packet.kind() == old(packet).kind(),
                        old(packet).kind() == PacketType::Info,
                        buf == old(packet).payload(),
                        pos == old(packet).cursor(),
                        pos + 1 <= packet.cursor() <= buf.len(),
                        !done ==> parse_records(buf, pos + 1) == prepend_records(
                            records_view(snakes@),
                            parse_records(buf, packet.cursor() as int),
                        ),
                        done ==> parse_records(buf, pos + 1) == Some(
                            (records_view(snakes@), packet.cursor() as int),
                        ),
                    decreases
                            buf.len() - packet.cursor() + if done {
                                0int
                            } else {
                                1int
                            },
                {
                    if packet.remaining() < 1 {
                        return Err(FrameError::Malformed);
                    }
                    let ghost acc = records_view(snakes@);
                    let id = packet.read();
                    if id == TERMINATOR {
                        assert(acc + Seq::<SnakeRecordView>::empty() =~= acc);
                        done = true;
                    } else {
                        match read_shape(packet, id) {
                            None => {
                                return Err(FrameError::Malformed);
                            },
                            Some(record) => {
                                let ghost next = packet.cursor() as int;
                                snakes.push(record);
                                proof {
                                    assert(records_view(snakes@) =~= acc.push(record@));
                                    match parse_records(buf, next) {
                                        None => {},
                                        Some((rest, end)) => {
                                            assert(acc + (seq![record@] + rest) =~= acc.push(
                                                record@,
                                            ) + rest);
                                        },
                                    }
                                }
                            },
                        }
                    }
                }
                if packet.remaining() != 2 {
                    return Err(FrameError::Malformed);
                }
                let food = read_cell(packet);
                Ok(Frame::Info { own_id, snakes, food })
            },
            PacketType::FoodUpdate => {
                if n != 3 {
                    return Err(FrameError::Malformed);
                }
                let eater = packet.read();
                let food = read_cell(packet);
                Ok(Frame::FoodUpdate { eater, food })
            },
            PacketType::DirectionUpdate => {
                if n != 1 {
                    return Err(FrameError::Malformed);
                }
                match Direction::from_code(packet.read()) {
                    Some(direction) => Ok(Frame::DirectionUpdate { direction }),
                    None => Err(FrameError::Malformed),
                }
            },
            PacketType::HeadUpdate => {
                if n % 3 != 0 {
                    return Err(FrameError::Malformed);
                }
                let count = n / 3;
                let mut heads: Vec<HeadRecord> = Vec::new();
                let mut i: usize = 0;
                while i < count
                    invariant
                        i <= count,
                        n == buf.len() - pos,
                        n == 3 * count,
                        packet.wf(),
                        packet.payload() == buf,
                        packet.kind() == old(packet).kind(),
                        packet.cursor() == pos + 3 * i,
                        heads@ == parse_heads(buf, pos).subrange(0, i as int),
                    decreases count - i,
                {
                    let id = packet.read();
                    let head = read_cell(packet);
                    heads.push(HeadRecord { id, head });
                    assert(heads@ =~= parse_heads(buf, pos).subrange(0, i + 1));
                    i += 1;
                }
                assert(heads@ =~= parse_heads(buf, pos));
                Ok(Frame::HeadUpdate { heads })
            },
            PacketType::SnakeConnect => {
                if n < 1 {
                    return Err(FrameError::Malformed);
                }
                let id = packet.read();
                match read_shape(packet, id) {
                    None => Err(FrameError::Malformed),
                    Some(snake) => {
                        if packet.remaining() != 0 {
                            return Err(FrameError::Malformed);
                        }
                        Ok(Frame::SnakeConnect { snake })
                    },
                }
            },
            PacketType::SnakeDisconnect => {
                if n != 1 {
                    return Err(FrameError::Malformed);
                }
                let id = packet.read();
                Ok(Frame::SnakeDisconnect { id })
            },
            PacketType::ConnRejected => {
                if n != 0 {
                    return Err(FrameError::Malformed);
                }
                Ok(Frame::ConnRejected)
            },
        }
    }

    /// Decodes a frame body: the type byte, then the payload. Fails on an
    /// empty body, on a type byte that names no kind, and on a payload that
    /// does not follow the grammar of its kind exactly.
    pub fn decode(body: &[u8]) -> (r: Result<Frame, FrameError>)
        ensures
            match r {
                Ok(frame) => decode_body(body@) == Ok::<FrameView, FrameError>(frame@),
                Err(e) => decode_body(body@) == Err::<FrameView, FrameError>(e),
            },
    {
        match ReadablePacket::from_bytes(body) {
            Err(PacketError::Empty) => Err(FrameError::Empty),
            Err(PacketError::UnknownType(b)) => Err(FrameError::UnknownType(b)),
            Ok(mut packet) => Frame::parse(&mut packet),
        }
    }
}

} // verus!
