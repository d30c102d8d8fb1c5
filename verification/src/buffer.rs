//! Byte buffers of the runtime: one that grows by appending, and the
//! read-only buffer that it is frozen into.

use vstd::prelude::*;

verus! {

/// A buffer of bytes that grows by appending.
#[derive(Debug, PartialEq)]
pub struct BufferMut {
    bytes: Vec<u8>,
}

impl View for BufferMut {
    type V = Seq<u8>;

    closed spec fn view(&self) -> Seq<u8> {
        self.bytes@
    }
}

impl BufferMut {
    /// An empty buffer with room for `cap` bytes.
    pub fn new(cap: u32) -> (buf: Self)
        ensures
            buf@ == Seq::<u8>::empty(),
    {
        BufferMut { bytes: Vec::with_capacity(cap as usize) }
    }

    /// A buffer that holds `bytes`.
    pub fn with_bytes(bytes: Vec<u8>) -> (buf: Self)
        ensures
            buf@ == bytes@,
    {
        BufferMut { bytes }
    }

    /// The number of bytes of the buffer, cut to thirty-two bits.
    pub fn len(&self) -> (n: u32)
        ensures
            n == self@.len() as u32,
    {
        #[verifier::truncate]
        (self.bytes.len() as u32)
    }

    /// The `len` bytes of the buffer that start at `offset`.
    pub fn read(&self, offset: u32, len: u32) -> (slice: &[u8])
        requires
            len >= 1,
            offset + len <= self@.len(),
        ensures
            slice@ == self@.subrange(offset as int, offset + len),
    {
        let total: usize = self.bytes.len();
        let start: usize = offset as usize;
        let end: usize = start + (len - 1) as usize;
        assert(end < total);
        vstd::slice::slice_subrange(self.bytes.as_slice(), start, end + 1)
    }

    /// Appends `slice` to the buffer.
    pub fn write(&mut self, slice: &[u8])
        ensures
            final(self)@ == old(self)@ + slice@,
    {
        self.bytes.extend_from_slice(slice);
        assert(self.bytes@ =~= old(self).bytes@ + slice@);
    }

    /// The read-only buffer with the bytes of this buffer.
    pub fn freeze(self) -> (buf: Buffer)
        ensures
            buf@ == self@,
    {
        Buffer::new(self)
    }
}

/// A read-only buffer of bytes.
#[derive(Debug, PartialEq)]
pub struct Buffer {
    bytes: Vec<u8>,
}

impl View for Buffer {
    type V = Seq<u8>;

    closed spec fn view(&self) -> Seq<u8> {
        self.bytes@
    }
}

impl Buffer {
    /// The read-only buffer with the bytes of `buf`.
    pub fn new(buf: BufferMut) -> (frozen: Self)
        ensures
            frozen@ == buf@,
    {
        Buffer { bytes: buf.bytes }
    }

    /// The number of bytes of the buffer, cut to thirty-two bits.
    pub fn len(&self) -> (n: u32)
        ensures
            n == self@.len() as u32,
    {
        #[verifier::truncate]
        (self.bytes.len() as u32)
    }

    /// The `len` bytes of the buffer that start at `offset`.
    pub fn read(&self, offset: u32, len: u32) -> (slice: &[u8])
        requires
            len >= 1,
            offset + len <= self@.len(),
        ensures
            slice@ == self@.subrange(offset as int, offset + len),
    {
        let total: usize = self.bytes.len();
        let start: usize = offset as usize;
        let end: usize = start + (len - 1) as usize;
        assert(end < total);
        vstd::slice::slice_subrange(self.bytes.as_slice(), start, end + 1)
    }
}

} // verus!
