//! Decoding undoes encoding.

use crate::frame::{
    cells_bytes, decode_body, heads_bytes, parse_cells, parse_from, parse_heads, parse_records,
    parse_shape, records_bytes, Cell, FrameError, FrameView, HeadRecord, SnakeRecordView,
    TERMINATOR,
};
use crate::packet::{from_le16, le16, lemma_frame_bytes, lemma_le16_roundtrip, PacketType};
use crate::util::Direction;
use vstd::prelude::*;

verus! {

/// The bytes `bytes` stand in `buf` from position `pos` on.
pub open spec fn holds_at(buf: Seq<u8>, pos: int, bytes: Seq<u8>) -> bool {
    &&& 0 <= pos
    &&& pos + bytes.len() <= buf.len()
    &&& buf.subrange(pos, pos + bytes.len()) == bytes
}

/// Every buffer stands in itself from its start on.
pub proof fn lemma_holds_at_self(buf: Seq<u8>)
    ensures
        holds_at(buf, 0, buf),
{
    assert(buf.subrange(0, buf.len() as int) =~= buf);
}

/// Where bytes stand, each of them is found at its place.
pub proof fn lemma_holds_at_index(buf: Seq<u8>, pos: int, bytes: Seq<u8>, i: int)
    requires
        holds_at(buf, pos, bytes),
        0 <= i < bytes.len(),
    ensures
        buf[pos + i] == bytes[i],
{
    assert(buf.subrange(pos, pos + bytes.len())[i] == buf[pos + i]);
}

/// Where a concatenation stands, its two parts stand one behind the other.
pub proof fn lemma_holds_at_split(buf: Seq<u8>, pos: int, a: Seq<u8>, b: Seq<u8>)
    requires
        holds_at(buf, pos, a + b),
    ensures
        holds_at(buf, pos, a),
        holds_at(buf, pos + a.len(), b),
{
    let whole = a + b;
    let mid = pos + a.len();
    assert(buf.subrange(pos, mid) =~= whole.subrange(0, a.len() as int));
    assert(whole.subrange(0, a.len() as int) =~= a);
    assert(buf.subrange(mid, mid + b.len()) =~= whole.subrange(a.len() as int, whole.len() as int));
    assert(whole.subrange(a.len() as int, whole.len() as int) =~= b);
}

/// Every direction is found again from its code.
pub proof fn lemma_direction_code(d: Direction)
    ensures
        Direction::spec_from_code(d.spec_code()) == Some(d),
{
}

/// Every kind is found again from its type byte.
pub proof fn lemma_packet_type_code(kind: PacketType)
    ensures
        PacketType::spec_from_code(kind.spec_code()) == Some(kind),
{
}

/// The length of a record's bytes behind its id.
pub proof fn lemma_shape_len(record: SnakeRecordView)
    ensures
        record.shape_bytes().len() == 2 * record.body.len() + 4,
        record.bytes().len() == 2 * record.body.len() + 5,
{
}

/// The cells that stand at a position are read back from there.
pub proof fn lemma_parse_cells(buf: Seq<u8>, pos: int, cells: Seq<Cell>)
    requires
        holds_at(buf, pos, cells_bytes(cells)),
    ensures
        parse_cells(buf, pos, cells.len()) == cells,
{
    let bytes = cells_bytes(cells);
    let parsed = parse_cells(buf, pos, cells.len());
    assert forall|k: int| 0 <= k < cells.len() implies parsed[k] == cells[k] by {
        lemma_holds_at_index(buf, pos, bytes, 2 * k);
        lemma_holds_at_index(buf, pos, bytes, 2 * k + 1);
        assert(bytes[2 * k] == cells[k].x);
        assert(bytes[2 * k + 1] == cells[k].y);
    }
    assert(parsed =~= cells);
}

/// A valid record whose bytes behind the id stand at a position is read
/// back from there.
pub proof fn lemma_parse_shape(buf: Seq<u8>, pos: int, record: SnakeRecordView)
    requires
        record.valid(),
        holds_at(buf, pos, record.shape_bytes()),
    ensures
        parse_shape(buf, pos, record.id) == Some((record, pos + 2 * record.body.len() + 4)),
{
    let n = record.body.len();
    let count = (n + 1) as u16;
    let count_bytes = le16(count);
    let body_bytes = cells_bytes(record.body);
    let head_bytes = seq![record.head.x, record.head.y];
    assert(record.shape_bytes() == (count_bytes + body_bytes) + head_bytes);
    lemma_holds_at_split(buf, pos, count_bytes + body_bytes, head_bytes);
    lemma_holds_at_split(buf, pos, count_bytes, body_bytes);
    lemma_holds_at_index(buf, pos, count_bytes, 0);
    lemma_holds_at_index(buf, pos, count_bytes, 1);
    lemma_le16_roundtrip(count, 0, 0);
    assert(from_le16(buf[pos], buf[pos + 1]) == count);
    lemma_parse_cells(buf, pos + 2, record.body);
    lemma_holds_at_index(buf, pos + 2 + 2 * n, head_bytes, 0);
    lemma_holds_at_index(buf, pos + 2 + 2 * n, head_bytes, 1);
    assert(parse_shape(buf, pos, record.id) is Some);
    let (parsed, _) = parse_shape(buf, pos, record.id)->0;
    assert(parsed =~= record);
}

/// Valid records, none with the terminator as its id, whose bytes stand at
/// a position with the terminator behind them, are read back from there.
pub proof fn lemma_parse_records(buf: Seq<u8>, pos: int, records: Seq<SnakeRecordView>)
    requires
        forall|i: int|
            0 <= i < records.len() ==> (#[trigger] records[i]).valid() && records[i].id
                != TERMINATOR,
        holds_at(buf, pos, records_bytes(records) + seq![TERMINATOR]),
    ensures
        parse_records(buf, pos) == Some((records, pos + records_bytes(records).len() + 1)),
    decreases records.len(),
{
    let marker = seq![TERMINATOR];
    if records.len() == 0 {
        assert(records_bytes(records) + marker =~= marker);
        lemma_holds_at_index(buf, pos, marker, 0);
    } else {
        let first = records[0];
        let rest = records.skip(1);
        let behind = records_bytes(rest) + marker;
        assert(first.valid() && first.id != TERMINATOR);
        lemma_shape_len(first);
        assert(records_bytes(records) == first.bytes() + records_bytes(rest));
        assert(records_bytes(records) + marker =~= seq![first.id] + (first.shape_bytes() + behind));
        lemma_holds_at_split(buf, pos, seq![first.id], first.shape_bytes() + behind);
        lemma_holds_at_split(buf, pos + 1, first.shape_bytes(), behind);
        lemma_holds_at_index(buf, pos, seq![first.id], 0);
        lemma_parse_shape(buf, pos + 1, first);
        let next = pos + 1 + 2 * first.body.len() + 4;
        assert forall|i: int| 0 <= i < rest.len() implies (#[trigger] rest[i]).valid() && rest[i].id
            != TERMINATOR by {
            assert(rest[i] == records[i + 1]);
        }
        lemma_parse_records(buf, next, rest);
        assert(seq![first] + rest =~= records);
    }
}

/// The heads whose bytes fill a buffer are read back from it.
pub proof fn lemma_parse_heads(heads: Seq<HeadRecord>)
    ensures
        parse_heads(heads_bytes(heads), 0) == heads,
        heads_bytes(heads).len() == 3 * heads.len(),
{
    let buf = heads_bytes(heads);
    assert forall|k: int| 0 <= k < heads.len() implies parse_heads(buf, 0)[k] == heads[k] by {
        assert(buf[3 * k] == heads[k].id);
        assert(buf[3 * k + 1] == heads[k].head.x);
        assert(buf[3 * k + 2] == heads[k].head.y);
    }
    assert(parse_heads(buf, 0) =~= heads);
}

/// Decoding the payload of an `Info` frame with valid records, none with
/// the terminator as its id, gives the frame back.
pub proof fn lemma_info_roundtrip(own_id: u8, snakes: Seq<SnakeRecordView>, food: Cell)
    requires
        forall|i: int|
            0 <= i < snakes.len() ==> (#[trigger] snakes[i]).valid() && snakes[i].id != TERMINATOR,
    ensures
        parse_from(PacketType::Info, (FrameView::Info { own_id, snakes, food }).payload(), 0)
            == Some(FrameView::Info { own_id, snakes, food }),
{
    let buf = (FrameView::Info { own_id, snakes, food }).payload();
    let listed = records_bytes(snakes) + seq![TERMINATOR];
    let food_bytes = seq![food.x, food.y];
    assert(buf =~= seq![own_id] + (listed + food_bytes));
    lemma_holds_at_self(buf);
    lemma_holds_at_split(buf, 0, seq![own_id], listed + food_bytes);
    lemma_holds_at_split(buf, 1, listed, food_bytes);
    lemma_holds_at_index(buf, 0, seq![own_id], 0);
    lemma_parse_records(buf, 1, snakes);
    let end = (1 + listed.len()) as int;
    lemma_holds_at_index(buf, end, food_bytes, 0);
    lemma_holds_at_index(buf, end, food_bytes, 1);
}

/// Decoding the payload of a `SnakeConnect` frame with a valid record gives
/// the frame back.
pub proof fn lemma_snake_connect_roundtrip(snake: SnakeRecordView)
    requires
        snake.valid(),
    ensures
        parse_from(PacketType::SnakeConnect, (FrameView::SnakeConnect { snake }).payload(), 0)
            == Some(FrameView::SnakeConnect { snake }),
{
    let buf = snake.bytes();
    lemma_holds_at_self(buf);
    lemma_holds_at_split(buf, 0, seq![snake.id], snake.shape_bytes());
    lemma_holds_at_index(buf, 0, seq![snake.id], 0);
    lemma_parse_shape(buf, 1, snake);
    lemma_shape_len(snake);
}

/// Decoding the payload of a frame whose records are valid gives the frame
/// back.
pub proof fn lemma_payload_roundtrip(frame: FrameView)
    requires
        frame.records_valid(),
    ensures
        parse_from(frame.kind(), frame.payload(), 0) == Some(frame),
{
    match frame {
        FrameView::Info { own_id, snakes, food } => {
            lemma_info_roundtrip(own_id, snakes, food);
        },
        FrameView::FoodUpdate { eater, food } => {},
        FrameView::DirectionUpdate { direction } => {
            lemma_direction_code(direction);
        },
        FrameView::HeadUpdate { heads } => {
            lemma_parse_heads(heads);
        },
        FrameView::SnakeConnect { snake } => {
            lemma_snake_connect_roundtrip(snake);
        },
        FrameView::SnakeDisconnect { id } => {},
        FrameView::ConnRejected => {},
    }
}

/// Encoding a frame that can travel and decoding what follows the length
/// prefix gives the frame back, kind and fields alike; and the length prefix
/// counts exactly the bytes that follow it.
pub proof fn lemma_roundtrip(frame: FrameView)
    requires
        frame.valid(),
    ensures
        frame.wire().len() == frame.payload().len() + 3,
        from_le16(frame.wire()[0], frame.wire()[1]) == frame.wire().len() - 2,
        decode_body(frame.wire().skip(2)) == Ok::<FrameView, FrameError>(frame),
{
    let kind = frame.kind();
    let payload = frame.payload();
    let body = frame.wire().skip(2);
    lemma_payload_roundtrip(frame);
    lemma_frame_bytes(kind, payload);
    lemma_packet_type_code(kind);
    assert(body.len() > 0 && body[0] == kind.spec_code() && body.skip(1) == payload) by {
        assert(body == seq![kind.spec_code()] + payload);
        assert(body.skip(1) =~= payload);
    }
}

/// The cells read at a position are written as the bytes that stand there.
pub proof fn lemma_cells_of_parse(buf: Seq<u8>, pos: int, n: nat)
    requires
        0 <= pos,
        pos + 2 * n <= buf.len(),
    ensures
        cells_bytes(parse_cells(buf, pos, n)) == buf.subrange(pos, pos + 2 * n),
{
    let cells = parse_cells(buf, pos, n);
    let bytes = cells_bytes(cells);
    let there = buf.subrange(pos, pos + 2 * n);
    assert(bytes.len() == there.len());
    assert forall|i: int| 0 <= i < bytes.len() implies bytes[i] == there[i] by {
        let k = i / 2;
        assert(0 <= k < n);
        assert(cells[k].x == buf[pos + 2 * k]);
        assert(cells[k].y == buf[pos + 2 * k + 1]);
        if i % 2 == 0 {
            assert(i == 2 * k);
        } else {
            assert(i == 2 * k + 1);
        }
    }
    assert(bytes =~= there);
}

/// A record read at a position is valid and is written as the bytes that
/// stand there.
pub proof fn lemma_shape_of_parse(buf: Seq<u8>, pos: int, id: u8)
    requires
        parse_shape(buf, pos, id) is Some,
    ensures
        ({
            let (record, end) = parse_shape(buf, pos, id)->0;
            &&& record.valid()
            &&& record.id == id
            &&& 0 <= pos < end <= buf.len()
            &&& record.shape_bytes() == buf.subrange(pos, end)
        }),
{
    let (record, end) = parse_shape(buf, pos, id)->0;
    let count = from_le16(buf[pos], buf[pos + 1]);
    let n = record.body.len();
    assert(n + 1 == count);
    lemma_le16_roundtrip(0, buf[pos], buf[pos + 1]);
    lemma_cells_of_parse(buf, pos + 2, n);
    let there = buf.subrange(pos, end);
    let bytes = record.shape_bytes();
    assert(bytes.len() == there.len());
    assert forall|i: int| 0 <= i < bytes.len() implies bytes[i] == there[i] by {
        if i < 2 {
            assert(bytes[i] == le16(count)[i]);
        } else if i < 2 + 2 * n {
            assert(bytes[i] == cells_bytes(record.body)[i - 2]);
            assert(buf.subrange(pos + 2, pos + 2 + 2 * n)[i - 2] == buf[pos + i]);
        } else {
            assert(bytes[i] == seq![record.head.x, record.head.y][i - 2 - 2 * n]);
        }
    }
    assert(bytes =~= there);
}

/// Records read at a position are valid, none has the terminator as its
/// id, and they are written, with the terminator behind them, as the bytes
/// that stand there.
pub proof fn lemma_records_of_parse(buf: Seq<u8>, pos: int)
    requires
        parse_records(buf, pos) is Some,
    ensures
        ({
            let (records, end) = parse_records(buf, pos)->0;
            &&& 0 <= pos < end <= buf.len()
            &&& forall|i: int|
                0 <= i < records.len() ==> (#[trigger] records[i]).valid() && records[i].id
                    != TERMINATOR
            &&& records_bytes(records) + seq![TERMINATOR] == buf.subrange(pos, end)
        }),
    decreases buf.len() - pos,
{
    let (records, end) = parse_records(buf, pos)->0;
    let marker = seq![TERMINATOR];
    if buf[pos] == TERMINATOR {
        assert(records_bytes(records) + marker =~= buf.subrange(pos, end));
    } else {
        let id = buf[pos];
        lemma_shape_of_parse(buf, pos + 1, id);
        let (first, next) = parse_shape(buf, pos + 1, id)->0;
        lemma_records_of_parse(buf, next);
        let (rest, last) = parse_records(buf, next)->0;
        assert(records == seq![first] + rest);
        assert(end == last);
        assert(records.skip(1) =~= rest);
        assert(records[0] == first);
        assert forall|i: int| 0 <= i < records.len() implies (#[trigger] records[i]).valid()
            && records[i].id != TERMINATOR by {
            if i > 0 {
                assert(records[i] == rest[i - 1]);
            }
        }
        let head_part = buf.subrange(pos, next);
        let tail_part = buf.subrange(next, end);
        assert(first.bytes() =~= head_part) by {
            assert(first.shape_bytes() == buf.subrange(pos + 1, next));
            assert(first.bytes().len() == head_part.len());
            assert forall|i: int| 0 <= i < head_part.len() implies first.bytes()[i]
                == head_part[i] by {
                if i > 0 {
                    assert(first.bytes()[i] == first.shape_bytes()[i - 1]);
                    assert(buf.subrange(pos + 1, next)[i - 1] == buf[pos + i]);
                }
            }
        }
        assert(records_bytes(records) == first.bytes() + records_bytes(rest));
        assert(records_bytes(rest) + marker == tail_part);
        assert(records_bytes(records) + marker =~= head_part + tail_part);
        assert(head_part + tail_part =~= buf.subrange(pos, end));
    }
}

/// The heads read from a buffer whose length is a multiple of three are
/// written as that buffer.
pub proof fn lemma_heads_of_parse(buf: Seq<u8>)
    requires
        buf.len() % 3 == 0,
    ensures
        heads_bytes(parse_heads(buf, 0)) == buf,
{
    let heads = parse_heads(buf, 0);
    let bytes = heads_bytes(heads);
    assert(bytes.len() == buf.len());
    assert forall|i: int| 0 <= i < bytes.len() implies bytes[i] == buf[i] by {
        let k = i / 3;
        assert(0 <= k < heads.len());
        assert(heads[k].id == buf[3 * k]);
        assert(heads[k].head.x == buf[3 * k + 1]);
        assert(heads[k].head.y == buf[3 * k + 2]);
    }
    assert(bytes =~= buf);
}

/// A payload that is read as a frame is the payload of that frame, and the
/// records of the frame are valid: nothing but what encoding writes is
/// accepted.
pub proof fn lemma_payload_is_canonical(kind: PacketType, payload: Seq<u8>)
    requires
        parse_from(kind, payload, 0) is Some,
    ensures
        parse_from(kind, payload, 0)->0.kind() == kind,
        parse_from(kind, payload, 0)->0.records_valid(),
        parse_from(kind, payload, 0)->0.payload() == payload,
{
    let frame = parse_from(kind, payload, 0)->0;
    match kind {
        PacketType::Info => {
            lemma_records_of_parse(payload, 1);
            let (snakes, end) = parse_records(payload, 1)->0;
            let food = seq![payload[end], payload[end + 1]];
            assert(frame.payload() =~= seq![payload[0]] + (records_bytes(snakes) + seq![
                TERMINATOR,
            ]) + food);
            assert(seq![payload[0]] + payload.subrange(1, end) + food =~= payload);
        },
        PacketType::FoodUpdate => {
            assert(frame.payload() =~= payload);
        },
        PacketType::DirectionUpdate => {
            assert(frame.payload() =~= payload);
        },
        PacketType::HeadUpdate => {
            lemma_heads_of_parse(payload);
        },
        PacketType::SnakeConnect => {
            lemma_shape_of_parse(payload, 1, payload[0]);
            let (_, end) = parse_shape(payload, 1, payload[0])->0;
            assert(seq![payload[0]] + payload.subrange(1, end) =~= payload);
        },
        PacketType::SnakeDisconnect => {
            assert(frame.payload() =~= payload);
        },
        PacketType::ConnRejected => {
            assert(frame.payload() =~= payload);
        },
    }
}

/// A body that decodes to a frame is the type byte and the payload of that
/// frame; and when a length prefix can count it, it is, behind the prefix,
/// exactly what encoding the frame gives. So no two bodies decode to the
/// same frame.
pub proof fn lemma_decode_is_canonical(body: Seq<u8>)
    requires
        decode_body(body) is Ok,
    ensures
        body == seq![decode_body(body)->Ok_0.kind().spec_code()] + decode_body(
            body,
        )->Ok_0.payload(),
        decode_body(body)->Ok_0.records_valid(),
        body.len() <= 65535 ==> decode_body(body)->Ok_0.valid() && decode_body(
            body,
        )->Ok_0.wire().skip(2) == body,
{
    let frame = decode_body(body)->Ok_0;
    let kind = PacketType::spec_from_code(body[0])->0;
    lemma_payload_is_canonical(kind, body.skip(1));
    assert(body =~= seq![kind.spec_code()] + body.skip(1));
    if body.len() <= 65535 {
        lemma_frame_bytes(kind, frame.payload());
    }
}

} // verus!
