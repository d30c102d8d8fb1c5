//! The cache of page slices above the page storage. It answers reads and
//! writes of byte ranges within a page from an image of the page that it
//! holds in memory, and writes the changed pages back as whole pages when
//! it commits. It holds the images of a bounded number of pages: when it
//! needs room it gives up the image of the page that was used least
//! recently.

use vstd::prelude::*;
use crate::common::State;
use crate::error::StorageError;
use crate::hasher::{KeyHasher, PageHasher};
use crate::kv::{apply_changes, KVStore};
use crate::merkle_page_storage::{MerklePageStorage, StorageView};
use crate::page::{PageHash, PageIndex, PageSliceLayout, PAGE_SIZE};

verus! {

/// The image of a page whose stored bytes are `stored`: the stored bytes,
/// cut or filled with zeros to the size of a page. A page without stored
/// bytes is all zeros.
pub open spec fn page_image(stored: Option<Seq<u8>>) -> Seq<u8> {
    Seq::new(
        PAGE_SIZE as nat,
        |k: int|
            match stored {
                Some(bytes) => if k < bytes.len() {
                    bytes[k]
                } else {
                    0u8
                },
                None => 0u8,
            },
    )
}

/// The page `page` with `data` written over the bytes from `offset` on.
pub open spec fn patched(page: Seq<u8>, offset: int, data: Seq<u8>) -> Seq<u8> {
    Seq::new(
        page.len(),
        |k: int|
            if offset <= k < offset + data.len() {
                data[k - offset]
            } else {
                page[k]
            },
    )
}

/// The place of the page `page` in the order `recency`.
pub open spec fn position(recency: Seq<u16>, page: u16) -> int {
    choose|a: int| 0 <= a < recency.len() && recency[a] == page
}

/// What a slice cache holds: the page storage under it, the images of the
/// pages that are resident, which of them were written since they became
/// resident or since the last commit, and the order in which the resident
/// pages were last used.
pub struct CacheView {
    /// The page storage.
    pub storage: StorageView,
    /// For each page its image, if the page is resident.
    pub buffers: Seq<Option<Seq<u8>>>,
    /// For each page, whether its image holds bytes that the page storage
    /// has not been given.
    pub dirty: Seq<bool>,
    /// The resident pages, the least recently used first.
    pub recency: Seq<u16>,
    /// The greatest number of pages that are resident at a time.
    pub max_resident: nat,
}

impl CacheView {
    /// Tells whether the cache has one image slot for each page of the
    /// storage, every image has the size of a page, only resident pages
    /// count as written, and the order of use holds every resident page
    /// once and no more pages than may be resident.
    pub open spec fn wf(self) -> bool {
        &&& self.storage.slots.len() <= u16::MAX
        &&& self.buffers.len() == self.storage.slots.len()
        &&& self.dirty.len() == self.storage.slots.len()
        &&& forall|i: int|
            0 <= i < self.buffers.len() && (#[trigger] self.buffers[i]) is Some
                ==> self.buffers[i].unwrap().len() == PAGE_SIZE
        &&& forall|i: int|
            0 <= i < self.dirty.len() && #[trigger] self.dirty[i] ==> self.buffers[i] is Some
        &&& self.max_resident >= 1
        &&& self.recency.len() <= self.max_resident
        &&& forall|a: int, b: int|
            0 <= a < b < self.recency.len() ==> #[trigger] self.recency[a]
                != #[trigger] self.recency[b]
        &&& forall|a: int|
            0 <= a < self.recency.len() ==> (#[trigger] self.recency[a]) < self.buffers.len()
                && self.buffers[self.recency[a] as int] is Some
        &&& forall|i: int|
            0 <= i < self.buffers.len() && (#[trigger] self.buffers[i]) is Some ==> exists|a: int|
                0 <= a < self.recency.len() && #[trigger] self.recency[a] == i
    }

    /// The cache over `storage` before any page became resident.
    pub open spec fn empty(storage: StorageView, max_resident: nat) -> CacheView {
        CacheView {
            storage,
            buffers: Seq::new(storage.slots.len(), |i: int| None),
            dirty: Seq::new(storage.slots.len(), |i: int| false),
            recency: Seq::empty(),
            max_resident,
        }
    }

    /// The bytes that an image of the page `page_idx` is made of: the bytes
    /// that were written to the page storage and are not yet committed, or
    /// else what the page storage reads from `kv`.
    pub open spec fn stored_page<PH: PageHasher>(
        self,
        page_idx: PageIndex,
        kv: Map<Seq<u8>, Seq<u8>>,
    ) -> Result<Option<Seq<u8>>, StorageError> {
        match self.storage.written_data(page_idx) {
            Some(data) => Ok(Some(data)),
            None => self.storage.read::<PH>(page_idx, kv),
        }
    }

    /// The cache after the resident page `page` was used: it is the most
    /// recently used page.
    pub open spec fn touched(self, page: u16) -> CacheView {
        CacheView { recency: self.recency.remove(position(self.recency, page)).push(page), ..self }
    }

    /// The cache after it gave up the image of the least recently used
    /// page. An image that was written is written to the page storage
    /// first, where the page stays dirty until the next commit.
    pub open spec fn evicted<PH: PageHasher>(self) -> CacheView {
        let victim = self.recency[0];
        CacheView {
            storage: if self.dirty[victim as int] {
                self.storage.written::<PH>(PageIndex(victim), self.buffers[victim as int].unwrap())
            } else {
                self.storage
            },
            buffers: self.buffers.update(victim as int, None),
            dirty: self.dirty.update(victim as int, false),
            recency: self.recency.drop_first(),
            ..self
        }
    }

    /// The cache after the page `page_idx` was made resident and used. A
    /// resident page keeps its image. Another page gets the image of its
    /// stored bytes, after the cache made room for it if no more pages may
    /// be resident.
    pub open spec fn loaded<PH: PageHasher>(
        self,
        page_idx: PageIndex,
        kv: Map<Seq<u8>, Seq<u8>>,
    ) -> Result<CacheView, StorageError> {
        if page_idx.0 >= self.buffers.len() {
            Err(StorageError::OutOfRange)
        } else if self.buffers[page_idx.0 as int] is Some {
            Ok(self.touched(page_idx.0))
        } else {
            match self.stored_page::<PH>(page_idx, kv) {
                Ok(stored) => {
                    let room = if self.recency.len() >= self.max_resident {
                        self.evicted::<PH>()
                    } else {
                        self
                    };
                    Ok(
                        CacheView {
                            buffers: room.buffers.update(
                                page_idx.0 as int,
                                Some(page_image(stored)),
                            ),
                            recency: room.recency.push(page_idx.0),
                            ..room
                        },
                    )
                },
                Err(e) => Err(e),
            }
        }
    }

    /// What reading the slice `layout` gives: the cache with the page
    /// resident, and the bytes of the slice in the image of the page.
    pub open spec fn slice_read<PH: PageHasher>(
        self,
        layout: PageSliceLayout,
        kv: Map<Seq<u8>, Seq<u8>>,
    ) -> Result<(CacheView, Seq<u8>), StorageError> {
        if !layout.fits(self.buffers.len()) {
            Err(StorageError::OutOfRange)
        } else {
            match self.loaded::<PH>(layout.page_index, kv) {
                Ok(cache) => Ok(
                    (
                        cache,
                        cache.buffers[layout.page_index.0 as int].unwrap().subrange(
                            layout.page_offset.0 as int,
                            layout.page_offset.0 + layout.len,
                        ),
                    ),
                ),
                Err(e) => Err(e),
            }
        }
    }

    /// The cache after `data` was written to the slice `layout`: the page
    /// is resident, its image has `data` at the slice, and it counts as
    /// written.
    pub open spec fn slice_written<PH: PageHasher>(
        self,
        layout: PageSliceLayout,
        data: Seq<u8>,
        kv: Map<Seq<u8>, Seq<u8>>,
    ) -> Result<CacheView, StorageError> {
        if !layout.fits(self.buffers.len()) || data.len() != layout.len {
            Err(StorageError::OutOfRange)
        } else {
            match self.loaded::<PH>(layout.page_index, kv) {
                Ok(cache) => Ok(
                    CacheView {
                        buffers: cache.buffers.update(
                            layout.page_index.0 as int,
                            Some(
                                patched(
                                    cache.buffers[layout.page_index.0 as int].unwrap(),
                                    layout.page_offset.0 as int,
                                    data,
                                ),
                            ),
                        ),
                        dirty: cache.dirty.update(layout.page_index.0 as int, true),
                        ..cache
                    },
                ),
                Err(e) => Err(e),
            }
        }
    }

    /// The page storage after the images of the written pages among the
    /// first `n` pages were written to it, by page index.
    pub open spec fn flushed_upto<PH: PageHasher>(self, n: nat) -> StorageView
        decreases n,
    {
        if n == 0 {
            self.storage
        } else {
            let before = self.flushed_upto::<PH>((n - 1) as nat);
            if self.dirty[n - 1] {
                before.written::<PH>(PageIndex((n - 1) as u16), self.buffers[n - 1].unwrap())
            } else {
                before
            }
        }
    }

    /// The page storage after the images of all written pages were written
    /// to it.
    pub open spec fn flushed<PH: PageHasher>(self) -> StorageView {
        self.flushed_upto::<PH>(self.buffers.len())
    }

    /// The cache after a commit: the storage has committed the flushed
    /// pages, the images stay resident, and no page counts as written.
    pub open spec fn committed<KH: KeyHasher, PH: PageHasher>(self) -> CacheView {
        CacheView {
            storage: self.flushed::<PH>().committed::<KH>(),
            dirty: Seq::new(self.dirty.len(), |i: int| false),
            ..self
        }
    }
}

/// The bytes of what a page read gave.
pub open spec fn stored_view(stored: Option<Vec<u8>>) -> Option<Seq<u8>> {
    match stored {
        Some(bytes) => Some(bytes@),
        None => None,
    }
}

/// The bytes of the images of a list of buffers.
pub open spec fn buffers_view(buffers: Seq<Option<Vec<u8>>>) -> Seq<Option<Seq<u8>>> {
    Seq::new(buffers.len(), |i: int| stored_view(buffers[i]))
}

/// The image of a page whose stored bytes are `stored`.
pub fn make_page_image(stored: Option<Vec<u8>>) -> (image: Vec<u8>)
    ensures
        image@ == page_image(stored_view(stored)),
{
    let mut image: Vec<u8> = match stored {
        Some(bytes) => bytes,
        None => Vec::new(),
    };
    let ghost before = image@;
    image.resize(PAGE_SIZE, 0u8);
    proof {
        if before.len() < PAGE_SIZE {
            assert forall|k: int| 0 <= k < PAGE_SIZE implies image@[k] == page_image(
                stored_view(stored),
            )[k] by {
                if k < before.len() {
                    assert(image@.subrange(0, before.len() as int)[k] == before[k]);
                }
            }
        }
        assert(image@ =~= page_image(stored_view(stored)));
    }
    image
}

/// In an order of use that is well formed, the place of a page is the only
/// place where it stands.
pub proof fn lemma_position(cache: CacheView, a: int)
    requires
        cache.wf(),
        0 <= a < cache.recency.len(),
    ensures
        position(cache.recency, cache.recency[a]) == a,
{
    let p = position(cache.recency, cache.recency[a]);
    assert(0 <= p < cache.recency.len() && cache.recency[p] == cache.recency[a]);
    if p < a {
        assert(cache.recency[p] != cache.recency[a]);
    } else if a < p {
        assert(cache.recency[a] != cache.recency[p]);
    }
}

/// Using a resident page keeps the cache well formed.
pub proof fn lemma_touched_wf(cache: CacheView, a: int)
    requires
        cache.wf(),
        0 <= a < cache.recency.len(),
    ensures
        cache.touched(cache.recency[a]).wf(),
        cache.touched(cache.recency[a]).recency == cache.recency.remove(a).push(cache.recency[a]),
{
    lemma_position(cache, a);
    let page = cache.recency[a];
    let old_order = cache.recency;
    let new_order = old_order.remove(a).push(page);
    let touched = cache.touched(page);
    assert(touched.recency == new_order);
    assert(new_order.len() == old_order.len());
    assert forall|x: int| 0 <= x < new_order.len() implies #[trigger] new_order[x] == old_order[if x
        == new_order.len() - 1 {
        a
    } else if x < a {
        x
    } else {
        x + 1
    }] by {}
    assert forall|x: int, y: int| 0 <= x < y < new_order.len() implies #[trigger] new_order[x]
        != #[trigger] new_order[y] by {
        let ox = if x < a {
            x
        } else {
            x + 1
        };
        let oy = if y == new_order.len() - 1 {
            a
        } else if y < a {
            y
        } else {
            y + 1
        };
        assert(new_order[x] == old_order[ox]);
        assert(new_order[y] == old_order[oy]);
        assert(ox != oy);
        if ox < oy {
            assert(old_order[ox] != old_order[oy]);
        } else {
            assert(old_order[oy] != old_order[ox]);
        }
    }
    assert forall|x: int| 0 <= x < new_order.len() implies (#[trigger] new_order[x])
        < touched.buffers.len() && touched.buffers[new_order[x] as int] is Some by {
        let ox = if x == new_order.len() - 1 {
            a
        } else if x < a {
            x
        } else {
            x + 1
        };
        assert(new_order[x] == old_order[ox]);
    }
    assert forall|i: int|
        0 <= i < touched.buffers.len() && (#[trigger] touched.buffers[i]) is Some implies exists|
        x: int,
    |
        0 <= x < new_order.len() && #[trigger] new_order[x] == i by {
        let o = choose|o: int| 0 <= o < old_order.len() && #[trigger] old_order[o] == i;
        let x = if o == a {
            new_order.len() - 1
        } else if o < a {
            o
        } else {
            o - 1
        };
        assert(new_order[x] == i);
    }
}

/// Giving up the least recently used page keeps the cache well formed,
/// where a page is resident.
pub proof fn lemma_evicted_wf<PH: PageHasher>(cache: CacheView)
    requires
        cache.wf(),
        cache.recency.len() > 0,
    ensures
        cache.evicted::<PH>().wf(),
        cache.evicted::<PH>().recency.len() == cache.recency.len() - 1,
        cache.evicted::<PH>().max_resident == cache.max_resident,
{
    let victim = cache.recency[0];
    let evicted = cache.evicted::<PH>();
    let old_order = cache.recency;
    let new_order = evicted.recency;
    assert(victim < cache.buffers.len());
    assert forall|x: int| 0 <= x < new_order.len() implies #[trigger] new_order[x] == old_order[x
        + 1] by {}
    assert forall|x: int, y: int| 0 <= x < y < new_order.len() implies #[trigger] new_order[x]
        != #[trigger] new_order[y] by {
        assert(old_order[x + 1] != old_order[y + 1]);
    }
    assert forall|x: int| 0 <= x < new_order.len() implies (#[trigger] new_order[x])
        < evicted.buffers.len() && evicted.buffers[new_order[x] as int] is Some by {
        assert(new_order[x] == old_order[x + 1]);
        assert(old_order[0] != old_order[x + 1]);
    }
    assert forall|i: int|
        0 <= i < evicted.buffers.len() && (#[trigger] evicted.buffers[i]) is Some implies exists|
        x: int,
    |
        0 <= x < new_order.len() && #[trigger] new_order[x] == i by {
        assert(cache.buffers[i] is Some);
        let o = choose|o: int| 0 <= o < old_order.len() && #[trigger] old_order[o] == i;
        assert(o != 0);
        assert(new_order[o - 1] == i);
    }
    assert forall|i: int| 0 <= i < evicted.dirty.len() && #[trigger] evicted.dirty[i] implies
        evicted.buffers[i] is Some by {
        assert(cache.dirty[i]);
    }
}

/// Making a page resident keeps the cache well formed.
pub proof fn lemma_loaded_wf<PH: PageHasher>(
    cache: CacheView,
    page_idx: PageIndex,
    kv: Map<Seq<u8>, Seq<u8>>,
)
    requires
        cache.wf(),
        cache.loaded::<PH>(page_idx, kv) is Ok,
    ensures
        cache.loaded::<PH>(page_idx, kv).unwrap().wf(),
        cache.loaded::<PH>(page_idx, kv).unwrap().buffers[page_idx.0 as int] is Some,
        cache.loaded::<PH>(page_idx, kv).unwrap().recency.last() == page_idx.0,
        cache.loaded::<PH>(page_idx, kv).unwrap().max_resident == cache.max_resident,
{
    let i = page_idx.0 as int;
    let loaded = cache.loaded::<PH>(page_idx, kv).unwrap();
    if cache.buffers[i] is Some {
        let a = choose|a: int| 0 <= a < cache.recency.len() && #[trigger] cache.recency[a] == i;
        lemma_touched_wf(cache, a);
    } else {
        let room = if cache.recency.len() >= cache.max_resident {
            cache.evicted::<PH>()
        } else {
            cache
        };
        if cache.recency.len() >= cache.max_resident {
            lemma_evicted_wf::<PH>(cache);
        }
        assert(room.wf());
        assert(room.buffers[i] is None);
        let old_order = room.recency;
        let new_order = loaded.recency;
        assert forall|x: int, y: int| 0 <= x < y < new_order.len() implies #[trigger] new_order[x]
            != #[trigger] new_order[y] by {
            if y == new_order.len() - 1 {
                assert(room.buffers[old_order[x] as int] is Some);
            } else {
                assert(old_order[x] != old_order[y]);
            }
        }
        assert forall|x: int| 0 <= x < new_order.len() implies (#[trigger] new_order[x])
            < loaded.buffers.len() && loaded.buffers[new_order[x] as int] is Some by {
            if x < old_order.len() {
                assert(new_order[x] == old_order[x]);
            }
        }
        assert forall|j: int|
            0 <= j < loaded.buffers.len() && (#[trigger] loaded.buffers[j]) is Some implies exists|
            x: int,
        |
            0 <= x < new_order.len() && #[trigger] new_order[x] == j by {
            if j == i {
                assert(new_order[new_order.len() - 1] == j);
            } else {
                assert(room.buffers[j] is Some);
                let o = choose|o: int| 0 <= o < old_order.len() && #[trigger] old_order[o] == j;
                assert(new_order[o] == j);
            }
        }
        assert forall|j: int| 0 <= j < loaded.dirty.len() && #[trigger] loaded.dirty[j] implies
            loaded.buffers[j] is Some by {
            assert(room.dirty[j]);
        }
    }
}

/// The cache of page slices of one contract, above its page storage.
pub struct PageSliceCache<KH, PH> {
    storage: MerklePageStorage<KH, PH>,
    buffers: Vec<Option<Vec<u8>>>,
    dirty: Vec<bool>,
    recency: Vec<u16>,
    max_resident: usize,
}

impl<KH: KeyHasher, PH: PageHasher> View for PageSliceCache<KH, PH> {
    type V = CacheView;

    closed spec fn view(&self) -> CacheView {
        CacheView {
            storage: self.storage@,
            buffers: buffers_view(self.buffers@),
            dirty: self.dirty@,
            recency: self.recency@,
            max_resident: self.max_resident as nat,
        }
    }
}

impl<KH: KeyHasher, PH: PageHasher> PageSliceCache<KH, PH> {
    /// A cache over `storage` in which all pages may be resident at a time.
    /// No page is resident yet.
    pub fn new(storage: MerklePageStorage<KH, PH>) -> (cache: Self)
        requires
            storage.wf(),
        ensures
            cache@ == CacheView::empty(
                storage@,
                if storage@.slots.len() == 0 {
                    1
                } else {
                    storage@.slots.len()
                },
            ),
            cache@.wf(),
    {
        let n: u16 = storage.pages_count();
        Self::with_max_resident(storage, n as usize)
    }

    /// A cache over `storage` in which at most `max_resident` pages are
    /// resident at a time, and at least one. No page is resident yet.
    pub fn with_max_resident(storage: MerklePageStorage<KH, PH>, max_resident: usize) -> (cache:
        Self)
        requires
            storage.wf(),
        ensures
            cache@ == CacheView::empty(
                storage@,
                if max_resident == 0 {
                    1
                } else {
                    max_resident as nat
                },
            ),
            cache@.wf(),
    {
        let n: u16 = storage.pages_count();
        let mut buffers: Vec<Option<Vec<u8>>> = Vec::with_capacity(n as usize);
        let mut dirty: Vec<bool> = Vec::with_capacity(n as usize);
        let mut i: u16 = 0;
        while i < n
            invariant
                i <= n,
                buffers@.len() == i,
                dirty@.len() == i,
                forall|j: int| 0 <= j < i ==> (#[trigger] buffers@[j]) is None,
                forall|j: int| 0 <= j < i ==> !(#[trigger] dirty@[j]),
            decreases n - i,
        {
            buffers.push(None);
            dirty.push(false);
            i += 1;
        }
        let max_resident: usize = if max_resident == 0 {
            1
        } else {
            max_resident
        };
        let cache = PageSliceCache { storage, buffers, dirty, recency: Vec::new(), max_resident };
        proof {
            let empty = CacheView::empty(storage@, max_resident as nat);
            assert(cache@.buffers =~= empty.buffers);
            assert(cache@.dirty =~= empty.dirty);
            assert(cache@.recency =~= empty.recency);
        }
        cache
    }

    /// Makes the resident page `page` the most recently used.
    fn touch(&mut self, page: u16)
        requires
            old(self)@.wf(),
            page < old(self)@.buffers.len(),
            old(self)@.buffers[page as int] is Some,
        ensures
            final(self)@ == old(self)@.touched(page),
            final(self)@.wf(),
    {
        let n: usize = self.recency.len();
        let mut a: usize = 0;
        while a < n
            invariant
                a <= n,
                n == self.recency@.len(),
                self@ == old(self)@,
                old(self)@.wf(),
                forall|x: int| 0 <= x < a ==> self.recency@[x] != page,
            decreases n - a,
        {
            if self.recency[a] == page {
                proof {
                    lemma_touched_wf(self@, a as int);
                }
                self.recency.remove(a);
                self.recency.push(page);
                return;
            }
            a += 1;
        }
        proof {
            let w = choose|w: int| 0 <= w < self@.recency.len() && #[trigger] self@.recency[w] == page;
            assert(self.recency@[w] != page);
        }
    }

    /// Gives up the image of the least recently used page. An image that
    /// was written is written to the page storage first.
    fn evict(&mut self)
        requires
            old(self)@.wf(),
            old(self)@.recency.len() > 0,
        ensures
            final(self)@ == old(self)@.evicted::<PH>(),
            final(self)@.wf(),
    {
        proof {
            lemma_evicted_wf::<PH>(self@);
            assert(self@.recency.remove(0) =~= self@.recency.drop_first());
            assert(self@.recency[0] < self@.buffers.len());
        }
        let victim: u16 = self.recency.remove(0);
        let v: usize = victim as usize;
        if self.dirty[v] {
            assert(old(self)@.buffers[v as int] is Some);
            match &self.buffers[v] {
                Some(page) => {
                    let _ = self.storage.write_page(PageIndex(victim), page.as_slice());
                },
                None => {},
            }
            self.dirty[v] = false;
        }
        self.buffers[v] = None;
        proof {
            let evicted = old(self)@.evicted::<PH>();
            assert(self@.buffers =~= evicted.buffers);
            assert(self@.dirty =~= evicted.dirty);
        }
    }

    /// Makes the page `page_idx` resident and the most recently used.
    fn load_page<KV: KVStore>(&mut self, kv: &KV, page_idx: PageIndex) -> (r: Result<
        (),
        StorageError,
    >)
        requires
            old(self)@.wf(),
        ensures
            final(self)@.wf(),
            match r {
                Ok(_) => old(self)@.loaded::<PH>(page_idx, kv@) == Ok::<CacheView, StorageError>(
                    final(self)@,
                ),
                Err(e) => old(self)@.loaded::<PH>(page_idx, kv@) == Err::<CacheView, StorageError>(
                    e,
                ) && final(self)@ == old(self)@,
            },
    {
        let i: usize = page_idx.0 as usize;
        if i >= self.buffers.len() {
            return Err(StorageError::OutOfRange);
        }
        if self.buffers[i].is_some() {
            self.touch(page_idx.0);
            return Ok(());
        }
        let stored: Option<Vec<u8>> = match self.storage.written_page(page_idx) {
            Some(data) => Some(data),
            None => match self.storage.read_page(kv, page_idx) {
                Ok(stored) => stored,
                Err(e) => {
                    return Err(e);
                },
            },
        };
        proof {
            lemma_loaded_wf::<PH>(self@, page_idx, kv@);
        }
        if self.recency.len() >= self.max_resident {
            self.evict();
        }
        let image = make_page_image(stored);
        proof {
            assert(buffers_view(self.buffers@.update(i as int, Some(image))) =~= buffers_view(
                self.buffers@,
            ).update(i as int, Some(page_image(stored_view(stored)))));
        }
        self.buffers[i] = Some(image);
        self.recency.push(page_idx.0);
        Ok(())
    }

    /// Reads the slice `layout` of the pages.
    pub fn read_page_slice<KV: KVStore>(&mut self, kv: &KV, layout: &PageSliceLayout) -> (r: Result<
        Vec<u8>,
        StorageError,
    >)
        requires
            old(self)@.wf(),
        ensures
            final(self)@.wf(),
            match r {
                Ok(bytes) => old(self)@.slice_read::<PH>(*layout, kv@) == Ok::<
                    (CacheView, Seq<u8>),
                    StorageError,
                >((final(self)@, bytes@)),
                Err(e) => old(self)@.slice_read::<PH>(*layout, kv@) == Err::<
                    (CacheView, Seq<u8>),
                    StorageError,
                >(e) && final(self)@ == old(self)@,
            },
    {
        if !layout.check(self.storage.pages_count()) {
            return Err(StorageError::OutOfRange);
        }
        match self.load_page(kv, layout.page_index()) {
            Ok(_) => {},
            Err(e) => {
                return Err(e);
            },
        }
        proof {
            lemma_loaded_wf::<PH>(old(self)@, layout.page_index, kv@);
        }
        let i: usize = layout.page_index().0 as usize;
        let start: usize = layout.page_offset().0 as usize;
        let end: usize = start + layout.len() as usize;
        match &self.buffers[i] {
            Some(page) => {
                let slice = vstd::slice::slice_subrange(page.as_slice(), start, end);
                Ok(vstd::slice::slice_to_vec(slice))
            },
            None => Err(StorageError::OutOfRange),
        }
    }

    /// Writes `data` to the slice `layout` of the pages. The bytes stay in
    /// the cache until the page has to make room or the cache commits.
    pub fn write_page_slice<KV: KVStore>(
        &mut self,
        kv: &KV,
        layout: &PageSliceLayout,
        data: &[u8],
    ) -> (r: Result<(), StorageError>)
        requires
            old(self)@.wf(),
        ensures
            final(self)@.wf(),
            match r {
                Ok(_) => old(self)@.slice_written::<PH>(*layout, data@, kv@) == Ok::<
                    CacheView,
                    StorageError,
                >(final(self)@),
                Err(e) => old(self)@.slice_written::<PH>(*layout, data@, kv@) == Err::<
                    CacheView,
                    StorageError,
                >(e) && final(self)@ == old(self)@,
            },
    {
        if !layout.check(self.storage.pages_count()) || data.len() != layout.len() as usize {
            return Err(StorageError::OutOfRange);
        }
        let i: usize = layout.page_index().0 as usize;
        let start: usize = layout.page_offset().0 as usize;
        let len: usize = data.len();
        match self.load_page(kv, layout.page_index()) {
            Ok(_) => {},
            Err(e) => {
                return Err(e);
            },
        }
        proof {
            lemma_loaded_wf::<PH>(old(self)@, layout.page_index, kv@);
        }
        let ghost loaded = self@;
        let taken = self.buffers[i].take();
        let mut page: Vec<u8> = match taken {
            Some(page) => page,
            None => Vec::new(),
        };
        let ghost before = page@;
        let mut k: usize = 0;
        while k < len
            invariant
                k <= len,
                len == data@.len(),
                start + len <= PAGE_SIZE,
                page@.len() == PAGE_SIZE,
                before.len() == PAGE_SIZE,
                forall|j: int| 0 <= j < start ==> page@[j] == before[j],
                forall|j: int| start <= j < start + k ==> page@[j] == data@[j - start],
                forall|j: int| start + k <= j < PAGE_SIZE ==> page@[j] == before[j],
            decreases len - k,
        {
            page[start + k] = data[k];
            k += 1;
        }
        assert(page@ =~= patched(before, start as int, data@));
        self.buffers[i] = Some(page);
        self.dirty[i] = true;
        proof {
            assert(buffers_view(self.buffers@) =~= loaded.buffers.update(
                i as int,
                Some(patched(before, start as int, data@)),
            ));
            let written = old(self)@.slice_written::<PH>(*layout, data@, kv@).unwrap();
            assert(self@ == written);
            assert forall|j: int|
                0 <= j < self@.buffers.len() && (#[trigger] self@.buffers[j]) is Some implies exists|
                x: int,
            |
                0 <= x < self@.recency.len() && #[trigger] self@.recency[x] == j by {
                assert(loaded.buffers[j] is Some);
            }
            assert forall|x: int| 0 <= x < self@.recency.len() implies (#[trigger] self@.recency[x])
                < self@.buffers.len() && self@.buffers[self@.recency[x] as int] is Some by {
                assert(loaded.buffers[loaded.recency[x] as int] is Some);
            }
        }
        Ok(())
    }

    /// Commits what was written: writes the image of every written page to
    /// the page storage, by page index, and commits the page storage.
    pub fn commit<KV: KVStore>(&mut self, kv: &mut KV) -> (new_state: State)
        requires
            old(self)@.wf(),
        ensures
            final(self)@.wf(),
            new_state == old(self)@.flushed::<PH>().next_state::<KH>(),
            final(kv)@ == apply_changes(
                old(kv)@,
                old(self)@.flushed::<PH>().commit_batch::<KH>(),
            ),
            final(self)@ == old(self)@.committed::<KH, PH>(),
    {
        let n: u16 = self.storage.pages_count();
        let mut i: u16 = 0;
        while i < n
            invariant
                i <= n,
                n == old(self)@.buffers.len(),
                self.buffers == old(self).buffers,
                self.dirty == old(self).dirty,
                self.recency == old(self).recency,
                self.max_resident == old(self).max_resident,
                old(self)@.wf(),
                self.storage.wf(),
                self.storage@.slots.len() == n,
                self.storage@ == old(self)@.flushed_upto::<PH>(i as nat),
            decreases n - i,
        {
            if self.dirty[i as usize] {
                assert(old(self)@.buffers[i as int] is Some);
                match &self.buffers[i as usize] {
                    Some(page) => {
                        let _ = self.storage.write_page(PageIndex(i), page.as_slice());
                    },
                    None => {},
                }
            }
            i += 1;
        }
        let new_state = self.storage.commit(kv);
        let mut k: u16 = 0;
        while k < n
            invariant
                k <= n,
                n == self.dirty@.len(),
                self.buffers == old(self).buffers,
                self.recency == old(self).recency,
                self.max_resident == old(self).max_resident,
                self.storage@ == old(self)@.flushed::<PH>().committed::<KH>(),
                forall|j: int| 0 <= j < k ==> !(#[trigger] self.dirty@[j]),
            decreases n - k,
        {
            self.dirty[k as usize] = false;
            k += 1;
        }
        assert(self@.dirty =~= old(self)@.committed::<KH, PH>().dirty);
        new_state
    }

    /// The state root that the page storage was opened at or last
    /// committed.
    pub fn get_state(&self) -> (state: State)
        ensures
            state == self@.storage.state,
    {
        self.storage.get_state()
    }

    /// The digest that the page storage has of the page `page_idx`. Slices
    /// that were written and are still only in the cache are not in it.
    pub fn get_page_hash(&self, page_idx: PageIndex) -> (r: Result<PageHash, StorageError>)
        ensures
            r == self@.storage.page_hash(page_idx),
    {
        self.storage.get_page_hash(page_idx)
    }
}

} // verus!
