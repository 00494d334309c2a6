//! A frame assembled in place: two bytes are kept free in front of the body
//! and filled with its length when the frame is built.

use crate::packet::le16;
use vstd::prelude::*;

verus! {

/// An outgoing frame under construction.
pub struct Packet {
    buffer: Vec<u8>,
}

impl Packet {
    /// The bytes held: the two-byte prefix, then the body.
    pub closed spec fn bytes(&self) -> Seq<u8> {
        self.buffer@
    }

    /// The prefix is in place.
    pub open spec fn wf(&self) -> bool {
        self.bytes().len() >= 2
    }

    /// The body written so far.
    pub open spec fn body(&self) -> Seq<u8> {
        self.bytes().skip(2)
    }

    /// An empty frame: a zero prefix and no body.
    pub fn new() -> (p: Self)
        ensures
            p.wf(),
            p.bytes() == seq![0u8, 0u8],
    {
        let mut buffer: Vec<u8> = Vec::new();
        buffer.push(0);
        buffer.push(0);
        Self { buffer }
    }

    /// Like [`Packet::new`], with room reserved for `capacity` body bytes,
    /// though for no more than a length prefix can count.
    pub fn with_capacity(capacity: usize) -> (p: Self)
        ensures
            p.wf(),
            p.bytes() == seq![0u8, 0u8],
    {
        let room: usize = if capacity > 65535 {
            65537
        } else {
            capacity + 2
        };
        let mut buffer: Vec<u8> = Vec::with_capacity(room);
        buffer.push(0);
        buffer.push(0);
        Self { buffer }
    }

    /// The bytes held: the two-byte prefix, then the body.
    pub fn buffer(&self) -> (b: &Vec<u8>)
        ensures
            b@ == self.bytes(),
    {
        &self.buffer
    }

    /// Appends one byte to the body.
    pub fn write(&mut self, value: u8)
        ensures
            final(self).bytes() == old(self).bytes().push(value),
    {
        self.buffer.push(value);
    }

    /// Appends a 16-bit number to the body, least significant byte first.
    pub fn write_u16_le(&mut self, value: u16)
        ensures
            final(self).bytes() == old(self).bytes() + le16(value),
    {
        let b0: u8 = (value % 256) as u8;
        let b1: u8 = (value / 256) as u8;
        self.buffer.push(b0);
        self.buffer.push(b1);
    }

    /// Fills the prefix with the length of the body, truncated to 16 bits,
    /// and returns the whole frame.
    pub fn build(&mut self) -> (frame: &[u8])
        requires
            old(self).wf(),
        ensures
            final(self).wf(),
            final(self).bytes() == le16((old(self).body().len() % 65536) as u16) + old(self).body(),
            frame@ == final(self).bytes(),
    {
        let len: usize = self.buffer.len() - 2;
        let low: u16 = (len % 65536) as u16;
        let b0: u8 = (low % 256) as u8;
        let b1: u8 = (low / 256) as u8;
        self.buffer[0] = b0;
        self.buffer[1] = b1;
        self.buffer.as_slice()
    }
}

} // verus!
