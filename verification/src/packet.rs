//! Length-prefixed, typed frames: `[u16 little-endian length][u8 type][payload]`,
//! where the length counts the type byte and the payload.

use vstd::prelude::*;

verus! {

/// The seven kinds of frame.
#[derive(Clone, Copy, Debug, PartialEq, Eq, Hash, Structural)]
pub enum PacketType {
    Info,
    FoodUpdate,
    DirectionUpdate,
    HeadUpdate,
    SnakeConnect,
    SnakeDisconnect,
    ConnRejected,
}

impl PacketType {
    /// The type byte of the kind.
    pub open spec fn spec_code(self) -> u8 {
        match self {
            PacketType::Info => 0x1,
            PacketType::FoodUpdate => 0x2,
            PacketType::DirectionUpdate => 0x3,
            PacketType::HeadUpdate => 0x4,
            PacketType::SnakeConnect => 0x5,
            PacketType::SnakeDisconnect => 0x6,
            PacketType::ConnRejected => 0x7,
        }
    }

    /// The kind that a type byte names, if any.
    pub open spec fn spec_from_code(code: u8) -> Option<PacketType> {
        if code == 0x1 {
            Some(PacketType::Info)
        } else if code == 0x2 {
            Some(PacketType::FoodUpdate)
        } else if code == 0x3 {
            Some(PacketType::DirectionUpdate)
        } else if code == 0x4 {
            Some(PacketType::HeadUpdate)
        } else if code == 0x5 {
            Some(PacketType::SnakeConnect)
        } else if code == 0x6 {
            Some(PacketType::SnakeDisconnect)
        } else if code == 0x7 {
            Some(PacketType::ConnRejected)
        } else {
            None
        }
    }

    /// Returns the type byte of the kind.
    pub fn code(self) -> (c: u8)
        ensures
            c == self.spec_code(),
    {
        match self {
            PacketType::Info => 0x1,
            PacketType::FoodUpdate => 0x2,
            PacketType::DirectionUpdate => 0x3,
            PacketType::HeadUpdate => 0x4,
            PacketType::SnakeConnect => 0x5,
            PacketType::SnakeDisconnect => 0x6,
            PacketType::ConnRejected => 0x7,
        }
    }

    /// Returns the kind that a type byte names; `None` for an unknown byte.
    pub fn from_code(code: u8) -> (t: Option<PacketType>)
        ensures
            t == PacketType::spec_from_code(code),
    {
        match code {
            0x1 => Some(PacketType::Info),
            0x2 => Some(PacketType::FoodUpdate),
            0x3 => Some(PacketType::DirectionUpdate),
            0x4 => Some(PacketType::HeadUpdate),
            0x5 => Some(PacketType::SnakeConnect),
            0x6 => Some(PacketType::SnakeDisconnect),
            0x7 => Some(PacketType::ConnRejected),
            _ => None,
        }
    }
}

/// The two bytes of `value`, least significant first.
pub open spec fn le16(value: u16) -> Seq<u8> {
    seq![(value % 256) as u8, (value / 256) as u8]
}

/// The number whose little-endian bytes are `lo`, `hi`.
pub open spec fn from_le16(lo: u8, hi: u8) -> u16 {
    (lo + 256 * hi) as u16
}

/// A frame as it travels: the length prefix (type byte plus payload, reduced
/// modulo 65536), the type byte, the payload.
pub open spec fn frame_bytes(kind: PacketType, payload: Seq<u8>) -> Seq<u8> {
    le16(((payload.len() + 1) % 65536) as u16) + seq![kind.spec_code()] + payload
}

/// Decoding the two bytes of a number gives the number back, and the other
/// way round.
pub proof fn lemma_le16_roundtrip(value: u16, lo: u8, hi: u8)
    ensures
        le16(value).len() == 2,
        from_le16(le16(value)[0], le16(value)[1]) == value,
        le16(from_le16(lo, hi)) == seq![lo, hi],
{
    assert(le16(from_le16(lo, hi)) =~= seq![lo, hi]);
}

/// The parts of a frame whose payload is short enough for the length
/// prefix: the prefix counts the type byte and the payload, the type byte
/// follows it, the payload follows the type byte.
pub proof fn lemma_frame_bytes(kind: PacketType, payload: Seq<u8>)
    requires
        payload.len() + 1 <= 65535,
    ensures
        frame_bytes(kind, payload).len() == payload.len() + 3,
        from_le16(frame_bytes(kind, payload)[0], frame_bytes(kind, payload)[1]) == payload.len()
            + 1,
        frame_bytes(kind, payload)[2] == kind.spec_code(),
        frame_bytes(kind, payload).skip(2) == seq![kind.spec_code()] + payload,
        frame_bytes(kind, payload).skip(3) == payload,
{
    let prefix = ((payload.len() + 1) % 65536) as u16;
    let bytes = frame_bytes(kind, payload);
    lemma_le16_roundtrip(prefix, 0, 0);
    assert(bytes[0] == le16(prefix)[0]);
    assert(bytes[1] == le16(prefix)[1]);
    assert(bytes.skip(2) =~= seq![kind.spec_code()] + payload);
    assert(bytes.skip(3) =~= payload);
}

/// The number of bytes that follow a length prefix whose two bytes are `lo`
/// and `hi`.
pub fn body_length(lo: u8, hi: u8) -> (n: usize)
    ensures
        n == from_le16(lo, hi),
{
    let lo16: u16 = lo as u16;
    let hi16: u16 = hi as u16;
    (lo16 + 256 * hi16) as usize
}

/// Why a received frame body was refused.
#[derive(Clone, Copy, Debug, PartialEq, Eq, Structural)]
pub enum PacketError {
    /// The body holds no type byte.
    Empty,
    /// The type byte names none of the seven kinds.
    UnknownType(u8),
}

/// Collects the payload of an outgoing frame.
pub struct PacketBuilder {
    kind: PacketType,
    buffer: Vec<u8>,
}

impl PacketBuilder {
    /// The kind of the frame under construction.
    pub closed spec fn kind(&self) -> PacketType {
        self.kind
    }

    /// The payload written so far.
    pub closed spec fn payload(&self) -> Seq<u8> {
        self.buffer@
    }

    /// Starts a frame of the given kind with an empty payload.
    pub fn new(kind: PacketType) -> (b: Self)
        ensures
            b.kind() == kind,
            b.payload() == Seq::<u8>::empty(),
    {
        Self { kind, buffer: Vec::new() }
    }

    /// Like [`PacketBuilder::new`], with room reserved for `capacity`
    /// payload bytes, though for no more than a length prefix can count.
    pub fn with_capacity(kind: PacketType, capacity: usize) -> (b: Self)
        ensures
            b.kind() == kind,
            b.payload() == Seq::<u8>::empty(),
    {
        let room: usize = if capacity > 65535 {
            65535
        } else {
            capacity
        };
        Self { kind, buffer: Vec::with_capacity(room) }
    }

    /// Number of payload bytes written so far.
    pub fn len(&self) -> (n: usize)
        ensures
            n == self.payload().len(),
    {
        self.buffer.len()
    }

    /// Appends one byte to the payload.
    pub fn write(&mut self, value: u8)
        ensures
            final(self).kind() == old(self).kind(),
            final(self).payload() == old(self).payload().push(value),
    {
        self.buffer.push(value);
    }

    /// Appends a 16-bit number to the payload, least significant byte first.
    pub fn write_u16_le(&mut self, value: u16)
        ensures
            final(self).kind() == old(self).kind(),
            final(self).payload() == old(self).payload() + le16(value),
    {
        self.buffer.push((value % 256) as u8);
        self.buffer.push((value / 256) as u8);
    }

    /// Produces the frame: length prefix, type byte, payload. The prefix is
    /// the payload length plus one, truncated to 16 bits.
    pub fn build(&self) -> (bytes: Vec<u8>)
        ensures
            bytes@ == frame_bytes(self.kind(), self.payload()),
    {
        let n: usize = self.buffer.len();
        let low: u16 = (n % 65536) as u16;
        let packet_len: u16 = if low == 65535 {
            0
        } else {
            low + 1
        };
        assert(packet_len == (n + 1) % 65536);
        let mut packet: Vec<u8> = Vec::new();
        packet.push((packet_len % 256) as u8);
        packet.push((packet_len / 256) as u8);
        packet.push(self.kind.code());
        let ghost head = packet@;
        let mut i: usize = 0;
        while i < n
            invariant
                n == self.buffer.len(),
                i <= n,
                packet@ == head + self.buffer@.subrange(0, i as int),
            decreases n - i,
        {
            packet.push(self.buffer[i]);
            i += 1;
        }
        packet
    }
}

/// A received frame body: its kind, its payload, and how much of the payload
/// has been read.
pub struct ReadablePacket {
    kind: PacketType,
    buffer: Vec<u8>,
    cursor: usize,
}

impl ReadablePacket {
    /// The kind named by the type byte.
    pub closed spec fn kind(&self) -> PacketType {
        self.kind
    }

    /// The whole payload.
    pub closed spec fn payload(&self) -> Seq<u8> {
        self.buffer@
    }

    /// Number of payload bytes already read.
    pub closed spec fn cursor(&self) -> nat {
        self.cursor as nat
    }

    /// The cursor lies within the payload.
    pub open spec fn wf(&self) -> bool {
        self.cursor() <= self.payload().len()
    }

    /// Number of payload bytes not yet read.
    pub open spec fn unread(&self) -> int {
        self.payload().len() - self.cursor()
    }

    /// Splits a frame body into type byte and payload. Fails on an empty
    /// body and on a type byte that names no kind.
    pub fn from_bytes(bytes: &[u8]) -> (r: Result<Self, PacketError>)
        ensures
            match r {
                Ok(p) => {
                    &&& bytes@.len() > 0
                    &&& PacketType::spec_from_code(bytes@[0]) == Some(p.kind())
                    &&& p.payload() == bytes@.skip(1)
                    &&& p.cursor() == 0
                    &&& p.wf()
                },
                Err(PacketError::Empty) => bytes@.len() == 0,
                Err(PacketError::UnknownType(b)) => {
                    &&& bytes@.len() > 0
                    &&& b == bytes@[0]
                    &&& PacketType::spec_from_code(b) is None
                },
            },
    {
        if bytes.len() == 0 {
            return Err(PacketError::Empty);
        }
        let kind = match PacketType::from_code(bytes[0]) {
            Some(kind) => kind,
            None => {
                return Err(PacketError::UnknownType(bytes[0]));
            },
        };
        let mut buffer: Vec<u8> = Vec::with_capacity(bytes.len() - 1);
        let mut i: usize = 1;
        while i < bytes.len()
            invariant
                1 <= i <= bytes@.len(),
                buffer@ == bytes@.subrange(1, i as int),
            decreases bytes@.len() - i,
        {
            buffer.push(bytes[i]);
            i += 1;
        }
        Ok(Self { kind, buffer, cursor: 0 })
    }

    /// The kind named by the type byte.
    pub fn packet_type(&self) -> (t: PacketType)
        ensures
            t == self.kind(),
    {
        self.kind
    }

    /// The whole payload, read or not.
    pub fn buffer(&self) -> (b: &Vec<u8>)
        ensures
            b@ == self.payload(),
    {
        &self.buffer
    }

    /// Reads the next payload byte.
    pub fn read(&mut self) -> (val: u8)
        requires
            old(self).wf(),
            old(self).unread() >= 1,
        ensures
            val == old(self).payload()[old(self).cursor() as int],
            final(self).cursor() == old(self).cursor() + 1,
            final(self).payload() == old(self).payload(),
            final(self).kind() == old(self).kind(),
            final(self).wf(),
    {
        assert(self.cursor < self.buffer.len());
        let val = self.buffer[self.cursor];
        self.cursor += 1;
        val
    }

    /// Reads the next two payload bytes as a 16-bit number, least
    /// significant byte first.
    pub fn read_u16_le(&mut self) -> (val: u16)
        requires
            old(self).wf(),
            old(self).unread() >= 2,
        ensures
            val == from_le16(
                old(self).payload()[old(self).cursor() as int],
                old(self).payload()[old(self).cursor() as int + 1],
            ),
            final(self).cursor() == old(self).cursor() + 2,
            final(self).payload() == old(self).payload(),
            final(self).kind() == old(self).kind(),
            final(self).wf(),
    {
        assert(self.cursor + 2 <= self.buffer.len());
        let lo: u16 = self.buffer[self.cursor] as u16;
        let hi: u16 = self.buffer[self.cursor + 1] as u16;
        self.cursor += 2;
        lo + 256 * hi
    }

    /// Number of payload bytes not yet read.
    pub fn remaining(&self) -> (n: usize)
        requires
            self.wf(),
        ensures
            n == self.unread(),
    {
        self.buffer.len() - self.cursor
    }
}

} // verus!
