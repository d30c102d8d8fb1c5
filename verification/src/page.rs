//! Pages and the values that address them: page indexes, offsets into a
//! page, page digests and the layout of a slice of a page.

use vstd::prelude::*;
use vstd::std_specs::cmp::PartialEqSpecImpl;
use crate::bytes::slices_equal;

verus! {

/// The number of bytes of every page.
pub const PAGE_SIZE: usize = 4096;

/// The ordinal of a page within the storage of one contract.
#[derive(Debug, Copy, Clone, PartialEq, Eq, Hash, Structural)]
pub struct PageIndex(pub u16);

/// A byte offset into a page.
#[derive(Debug, Copy, Clone, PartialEq, Eq, Hash, Structural)]
pub struct PageOffset(pub u32);

/// The digest of one page: thirty-two bytes.
#[derive(Debug, Copy, Clone, Hash)]
pub struct PageHash(pub [u8; 32]);

impl View for PageHash {
    type V = Seq<u8>;

    open spec fn view(&self) -> Seq<u8> {
        self.0@
    }
}

impl PageHash {
    /// The digest held in the thirty-two bytes of `bytes` that start at
    /// `start`.
    pub fn from_chunk(bytes: &[u8], start: usize) -> (h: PageHash)
        requires
            start + 32 <= bytes@.len(),
        ensures
            h@ == bytes@.subrange(start as int, start + 32),
    {
        let n: usize = bytes.len();
        let mut buf: [u8; 32] = [0u8; 32];
        let mut i: usize = 0;
        while i < 32
            invariant
                i <= 32,
                n == bytes@.len(),
                start + 32 <= n,
                forall|j: int| 0 <= j < i ==> buf@[j] == bytes@[start + j],
            decreases 32 - i,
        {
            buf[i] = bytes[start + i];
            i += 1;
        }
        let h = PageHash(buf);
        assert(h@ =~= bytes@.subrange(start as int, start + 32));
        h
    }

    /// The bytes of the digest.
    pub fn as_ref(&self) -> (s: &[u8])
        ensures
            s@ == self@,
    {
        self.0.as_slice()
    }
}

impl PartialEq for PageHash {
    fn eq(&self, other: &PageHash) -> (r: bool) {
        slices_equal(self.0.as_slice(), other.0.as_slice())
    }
}

impl Eq for PageHash {}

impl PartialEqSpecImpl for PageHash {
    open spec fn obeys_eq_spec() -> bool {
        true
    }

    open spec fn eq_spec(&self, other: &PageHash) -> bool {
        self@ == other@
    }
}

/// Two digests with the same bytes are the same digest.
pub proof fn lemma_page_hash_ext(a: PageHash, b: PageHash)
    requires
        a@ == b@,
    ensures
        a == b,
{
    assert(a.0 =~= b.0);
}

/// The place of a slice within the pages of a contract: the page, the
/// offset of the first byte and the number of bytes.
#[derive(Debug, Copy, Clone, PartialEq, Eq, Hash, Structural)]
pub struct PageSliceLayout {
    /// The page of the slice.
    pub page_index: PageIndex,
    /// The offset of the first byte of the slice.
    pub page_offset: PageOffset,
    /// The number of bytes of the slice.
    pub len: u32,
}

impl PageSliceLayout {
    /// A layout of `len` bytes at `page_offset` of page `page_index`.
    pub fn new(page_index: PageIndex, page_offset: PageOffset, len: u32) -> (layout: PageSliceLayout)
        ensures
            layout == (PageSliceLayout { page_index, page_offset, len }),
    {
        PageSliceLayout { page_index, page_offset, len }
    }

    /// The page of the slice.
    pub fn page_index(&self) -> (i: PageIndex)
        ensures
            i == self.page_index,
    {
        self.page_index
    }

    /// The offset of the first byte of the slice.
    pub fn page_offset(&self) -> (o: PageOffset)
        ensures
            o == self.page_offset,
    {
        self.page_offset
    }

    /// The number of bytes of the slice.
    pub fn len(&self) -> (n: u32)
        ensures
            n == self.len,
    {
        self.len
    }

    /// Tells whether the slice is not empty and lies within one page of a
    /// storage of `page_count` pages.
    pub open spec fn fits(&self, page_count: nat) -> bool {
        &&& self.len > 0
        &&& self.page_offset.0 + self.len <= PAGE_SIZE
        &&& self.page_index.0 < page_count
    }

    /// Tells whether the slice is not empty and lies within one page of a
    /// storage of `page_count` pages.
    pub fn check(&self, page_count: u16) -> (ok: bool)
        ensures
            ok == self.fits(page_count as nat),
    {
        self.len > 0 && self.page_offset.0 as u64 + self.len as u64 <= PAGE_SIZE as u64
            && self.page_index.0 < page_count
    }
}

} // verus!
