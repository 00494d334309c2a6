//! A byte buffer that is read from a cursor and written at its end.

use crate::packet::{from_le16, le16};
use vstd::prelude::*;

verus! {

/// A frame held as raw bytes, with a read cursor.
pub struct Packet {
    buffer: Vec<u8>,
    offset: usize,
}

impl Packet {
    /// The bytes held.
    pub closed spec fn bytes(&self) -> Seq<u8> {
        self.buffer@
    }

    /// The position of the read cursor.
    pub closed spec fn offset(&self) -> nat {
        self.offset as nat
    }

    /// The cursor lies within the bytes.
    pub open spec fn wf(&self) -> bool {
        self.offset() <= self.bytes().len()
    }

    /// Number of bytes behind the cursor.
    pub open spec fn unread(&self) -> int {
        self.bytes().len() - self.offset()
    }

    /// A frame to be written: a zero prefix of two bytes, the cursor behind
    /// it. Room is reserved for `capacity` body bytes, though for no more
    /// than a length prefix can count.
    pub fn with_capacity(capacity: usize) -> (p: Self)
        ensures
            p.wf(),
            p.bytes() == seq![0u8, 0u8],
            p.offset() == 2,
    {
        let room: usize = if capacity > 65535 {
            65537
        } else {
            capacity + 2
        };
        let mut buffer: Vec<u8> = Vec::with_capacity(room);
        buffer.push(0);
        buffer.push(0);
        Self { buffer, offset: 2 }
    }

    /// A frame to be read: the given bytes, the cursor at their start.
    pub fn from(bytes: Vec<u8>) -> (p: Self)
        ensures
            p.wf(),
            p.bytes() == bytes@,
            p.offset() == 0,
    {
        Self { buffer: bytes, offset: 0 }
    }

    /// The bytes held.
    pub fn buffer(&self) -> (b: &Vec<u8>)
        ensures
            b@ == self.bytes(),
    {
        &self.buffer
    }

    /// Reads the byte at the cursor.
    pub fn read(&mut self) -> (val: u8)
        requires
            old(self).wf(),
            old(self).unread() >= 1,
        ensures
            final(self).wf(),
            val == old(self).bytes()[old(self).offset() as int],
            final(self).bytes() == old(self).bytes(),
            final(self).offset() == old(self).offset() + 1,
    {
        assert(self.offset < self.buffer.len());
        let val = self.buffer[self.offset];
        self.offset += 1;
        val
    }

    /// Reads the two bytes at the cursor as a 16-bit number, least
    /// significant byte first.
    pub fn read_u16_le(&mut self) -> (val: u16)
        requires
            old(self).wf(),
            old(self).unread() >= 2,
        ensures
            final(self).wf(),
            val == from_le16(
                old(self).bytes()[old(self).offset() as int],
                old(self).bytes()[old(self).offset() as int + 1],
            ),
            final(self).bytes() == old(self).bytes(),
            final(self).offset() == old(self).offset() + 2,
    {
        assert(self.offset + 2 <= self.buffer.len());
        let b0: u16 = self.buffer[self.offset] as u16;
        let b1: u16 = self.buffer[self.offset + 1] as u16;
        self.offset += 2;
        b0 + 256 * b1
    }

    /// Appends one byte.
    pub fn write(&mut self, value: u8)
        ensures
            final(self).bytes() == old(self).bytes().push(value),
            final(self).offset() == old(self).offset(),
            old(self).wf() ==> final(self).wf(),
    {
        self.buffer.push(value);
    }

    /// Number of bytes behind the cursor.
    pub fn remaining(&self) -> (n: usize)
        requires
            self.wf(),
        ensures
            n == self.unread(),
    {
        self.buffer.len() - self.offset
    }

    /// Fills the first two bytes with the number of bytes that follow them,
    /// truncated to 16 bits, and returns the whole frame.
    pub fn build(&mut self) -> (frame: &[u8])
        requires
            old(self).bytes().len() >= 2,
        ensures
            final(self).bytes() == le16(((old(self).bytes().len() - 2) % 65536) as u16)
                + old(self).bytes().skip(2),
            final(self).offset() == old(self).offset(),
            old(self).wf() ==> final(self).wf(),
            frame@ == final(self).bytes(),
    {
        let len: usize = self.buffer.len() - 2;
        let low: u16 = (len % 65536) as u16;
        let b0: u8 = (low % 256) as u8;
        let b1: u8 = (low / 256) as u8;
        self.buffer[0] = b0;
        self.buffer[1] = b1;
        self.buffer.as_slice()
    }
}

} // verus!
