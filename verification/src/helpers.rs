//! The calls of the execution sandbox into the storage, with the plain
//! integers that the sandbox has.

use vstd::prelude::*;
use crate::app_storage::AppStorage;
use crate::error::StorageError;
use crate::hasher::{KeyHasher, PageHasher};
use crate::kv::KVStore;
use crate::page::{PageIndex, PageOffset, PageSliceLayout};
use crate::page_slice_cache::CacheView;

verus! {

/// The layout of the `len` bytes at `page_offset` of the page `page_idx`.
pub fn page_slice_layout(page_idx: u32, page_offset: u32, len: u32) -> (layout: PageSliceLayout)
    requires
        page_idx <= u16::MAX,
        len > 0,
    ensures
        layout == (PageSliceLayout {
            page_index: PageIndex(page_idx as u16),
            page_offset: PageOffset(page_offset),
            len,
        }),
{
    PageSliceLayout::new(PageIndex(page_idx as u16), PageOffset(page_offset), len)
}

/// Tells whether `page` is a page index and `len` is not zero, so that they
/// make a layout.
pub open spec fn layout_args_ok(page: u32, len: u32) -> bool {
    page <= u16::MAX && len > 0
}

/// The layout that `page`, `offset` and `len` make.
pub open spec fn layout_of(page: u32, offset: u32, len: u32) -> PageSliceLayout {
    PageSliceLayout { page_index: PageIndex(page as u16), page_offset: PageOffset(offset), len }
}

/// Reads the `len` bytes at `offset` of the page `page`.
pub fn storage_read_page_slice<KV: KVStore, KH: KeyHasher, PH: PageHasher>(
    storage: &mut AppStorage<KH, PH>,
    kv: &KV,
    page: u32,
    offset: u32,
    len: u32,
) -> (r: Result<Vec<u8>, StorageError>)
    requires
        old(storage)@.wf(),
    ensures
        final(storage)@.wf(),
        !layout_args_ok(page, len) ==> r == Err::<Vec<u8>, StorageError>(StorageError::OutOfRange)
            && final(storage)@ == old(storage)@,
        layout_args_ok(page, len) ==> match r {
            Ok(bytes) => old(storage)@.slice_read::<PH>(layout_of(page, offset, len), kv@) == Ok::<
                (CacheView, Seq<u8>),
                StorageError,
            >((final(storage)@, bytes@)),
            Err(e) => old(storage)@.slice_read::<PH>(layout_of(page, offset, len), kv@) == Err::<
                (CacheView, Seq<u8>),
                StorageError,
            >(e) && final(storage)@ == old(storage)@,
        },
{
    if page > 0xFFFF || len == 0 {
        return Err(StorageError::OutOfRange);
    }
    let layout = page_slice_layout(page, offset, len);
    storage.read_page_slice(kv, &layout)
}

/// Writes `data` to the `len` bytes at `offset` of the page `page`.
pub fn storage_write_page_slice<KV: KVStore, KH: KeyHasher, PH: PageHasher>(
    storage: &mut AppStorage<KH, PH>,
    kv: &KV,
    page: u32,
    offset: u32,
    len: u32,
    data: &[u8],
) -> (r: Result<(), StorageError>)
    requires
        old(storage)@.wf(),
    ensures
        final(storage)@.wf(),
        !layout_args_ok(page, len) ==> r == Err::<(), StorageError>(StorageError::OutOfRange)
            && final(storage)@ == old(storage)@,
        layout_args_ok(page, len) ==> match r {
            Ok(_) => old(storage)@.slice_written::<PH>(layout_of(page, offset, len), data@, kv@)
                == Ok::<CacheView, StorageError>(final(storage)@),
            Err(e) => old(storage)@.slice_written::<PH>(layout_of(page, offset, len), data@, kv@)
                == Err::<CacheView, StorageError>(e) && final(storage)@ == old(storage)@,
        },
{
    if page > 0xFFFF || len == 0 {
        return Err(StorageError::OutOfRange);
    }
    let layout = page_slice_layout(page, offset, len);
    storage.write_page_slice(kv, &layout, data)
}

} // verus!
