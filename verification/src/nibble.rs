//! Nibbles, and an iterator that reads a sequence of nibbles from bytes. The
//! most significant bit of a nibble tells whether the sequence goes on
//! after it.

use vstd::prelude::*;

verus! {

/// Four bits, held in the low half of a byte.
#[derive(Debug, Copy, Clone, PartialEq, Eq, Structural)]
pub struct Nibble(pub u8);

impl Nibble {
    /// Tells whether the most significant of the four bits is set.
    pub open spec fn spec_is_msb_on(&self) -> bool {
        self.0 & 0b_0000_1000 == 0b_0000_1000
    }

    /// Tells whether the most significant of the four bits is set.
    #[verifier::when_used_as_spec(spec_is_msb_on)]
    pub fn is_msb_on(&self) -> (r: bool)
        ensures
            r == self.is_msb_on(),
    {
        let msb: u8 = self.0 & 0b_0000_1000;
        msb == 0b_0000_1000
    }

    /// Tells whether the most significant of the four bits is clear.
    pub fn is_msb_off(&self) -> (r: bool)
        ensures
            r == !self.is_msb_on(),
    {
        !self.is_msb_on()
    }

    /// The four bits, most significant first.
    pub fn bits(&self) -> (bits: [bool; 4])
        ensures
            bits[0] == (self.0 & 0b_0000_1000 == 0b_0000_1000),
            bits[1] == (self.0 & 0b_0000_0100 == 0b_0000_0100),
            bits[2] == (self.0 & 0b_0000_0010 == 0b_0000_0010),
            bits[3] == (self.0 & 0b_0000_0001 == 0b_0000_0001),
    {
        let msb_0: bool = self.0 & 0b_0000_1000 == 0b_0000_1000;
        let msb_1: bool = self.0 & 0b_0000_0100 == 0b_0000_0100;
        let msb_2: bool = self.0 & 0b_0000_0010 == 0b_0000_0010;
        let msb_3: bool = self.0 & 0b_0000_0001 == 0b_0000_0001;
        [msb_0, msb_1, msb_2, msb_3]
    }
}

/// The `k`-th nibble of `bytes`: every byte holds two, the high one first.
pub open spec fn nibble_at(bytes: Seq<u8>, k: int) -> Nibble {
    if k % 2 == 0 {
        Nibble((bytes[k / 2] & 0xF0) >> 4)
    } else {
        Nibble(bytes[k / 2] & 0x0F)
    }
}

/// Reads the nibbles of a sequence from bytes. The sequence ends with the
/// first nibble whose most significant bit is clear. Where that nibble is
/// the high half of a byte, the low half is read too, so that the iterator
/// always ends at a byte boundary.
pub struct NibbleIter<'a> {
    has_more: bool,
    first_read: bool,
    last_byte: Option<u8>,
    bytes: &'a [u8],
    pos: usize,
}

impl<'a> NibbleIter<'a> {
    /// The bytes that the iterator reads from.
    pub closed spec fn bytes(&self) -> Seq<u8> {
        self.bytes@
    }

    /// The number of nibbles that the iterator has given.
    pub closed spec fn index(&self) -> nat {
        if self.last_byte is Some {
            (2 * self.pos - 1) as nat
        } else {
            (2 * self.pos) as nat
        }
    }

    /// Tells whether the sequence goes on: no nibble with a clear most
    /// significant bit has been given, and the bytes have not run out.
    pub closed spec fn has_more(&self) -> bool {
        self.has_more
    }

    /// Tells whether the fields of the iterator fit together.
    pub closed spec fn wf(&self) -> bool {
        &&& self.pos <= self.bytes@.len()
        &&& self.first_read == (self.pos == 0)
        &&& self.last_byte matches Some(byte) ==> self.pos >= 1 && byte == self.bytes@[self.pos - 1]
    }

    /// Tells whether the iterator has ended: the sequence does not go on
    /// and no half of a byte is left over.
    pub open spec fn ended(&self) -> bool {
        !self.has_more() && self.index() % 2 == 0
    }

    /// Tells whether the bytes have run out in the middle of a sequence:
    /// the sequence goes on after the nibbles given so far, of which there
    /// is at least one, but there is no byte left to read.
    pub open spec fn starved(&self) -> bool {
        self.has_more() && self.index() > 0 && self.index() == 2 * self.bytes().len()
    }

    /// An iterator over the nibbles of `bytes`, starting at the first byte.
    pub fn new(bytes: &'a [u8]) -> (iter: Self)
        ensures
            iter.wf(),
            iter.bytes() == bytes@,
            iter.index() == 0,
            iter.has_more(),
    {
        NibbleIter { bytes, pos: 0, last_byte: None, has_more: true, first_read: true }
    }

    /// Tells whether the bytes have run out in the middle of a sequence.
    pub fn is_starved(&self) -> (r: bool)
        requires
            self.wf(),
        ensures
            r == self.starved(),
    {
        self.has_more && !self.first_read && self.last_byte.is_none() && self.pos
            >= self.bytes.len()
    }

    /// The number of bytes that the iterator has read.
    pub fn position(&self) -> (pos: usize)
        requires
            self.wf(),
        ensures
            pos == (self.index() + 1) / 2,
    {
        self.pos
    }

    /// The next nibble, if the iterator has not ended. Over no bytes at all
    /// the iterator ends at once.
    pub fn next(&mut self) -> (r: Option<Nibble>)
        requires
            old(self).wf(),
            !old(self).starved(),
        ensures
            final(self).wf(),
            final(self).bytes() == old(self).bytes(),
            match r {
                Some(nibble) => {
                    &&& !old(self).ended()
                    &&& old(self).index() < 2 * old(self).bytes().len()
                    &&& nibble == nibble_at(old(self).bytes(), old(self).index() as int)
                    &&& final(self).index() == old(self).index() + 1
                    &&& final(self).has_more() == (old(self).has_more() && nibble.is_msb_on())
                },
                None => {
                    &&& old(self).ended() || old(self).bytes().len() == 0
                    &&& final(self).index() == old(self).index()
                    &&& !final(self).has_more()
                },
            },
    {
        if !self.has_more && self.last_byte.is_none() {
            return None;
        }
        let nibble = match self.last_byte {
            None => {
                if self.pos >= self.bytes.len() {
                    self.has_more = false;
                    return None;
                }
                let byte: u8 = self.bytes[self.pos];
                self.pos += 1;
                self.last_byte = Some(byte);
                assert((byte & 0xF0) >> 4 <= 0x0F) by (bit_vector);
                Nibble((byte & 0xF0) >> 4)
            },
            Some(byte) => {
                self.last_byte = None;
                Nibble(byte & 0x0F)
            },
        };
        if nibble.is_msb_off() {
            self.has_more = false;
        }
        self.first_read = false;
        Some(nibble)
    }
}

} // verus!
