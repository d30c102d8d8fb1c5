//! The storage of one contract as the execution sandbox sees it, and the
//! builder that opens it.

use vstd::prelude::*;
use crate::common::{Address, State};
use crate::error::StorageError;
use crate::hasher::{DefaultKeyHasher, DefaultPageHasher, KeyHasher, PageHasher};
use crate::kv::{apply_changes, KVStore};
use crate::merkle_page_storage::{MerklePageStorage, StorageView};
use crate::page::{PageHash, PageIndex, PageSliceLayout};
use crate::page_slice_cache::{CacheView, PageSliceCache};

verus! {

/// The settings of the storage of a contract.
#[derive(Debug, Copy, Clone, PartialEq, Eq, Structural)]
pub struct AppSettings {
    /// The number of pages of the contract.
    pub page_count: u16,
}

/// The storage of one contract: the slice cache and, under it, the page
/// storage.
pub struct AppStorage<KH, PH> {
    cache: PageSliceCache<KH, PH>,
}

/// The storage with the hashers of the default deployment.
pub type DefaultAppStorage = AppStorage<DefaultKeyHasher, DefaultPageHasher>;

impl<KH: KeyHasher, PH: PageHasher> View for AppStorage<KH, PH> {
    type V = CacheView;

    closed spec fn view(&self) -> CacheView {
        self.cache@
    }
}

impl<KH: KeyHasher, PH: PageHasher> AppStorage<KH, PH> {
    /// The storage over the slice cache `cache`.
    pub fn new(cache: PageSliceCache<KH, PH>) -> (storage: Self)
        ensures
            storage@ == cache@,
    {
        AppStorage { cache }
    }

    /// Reads the slice `layout` of the pages.
    pub fn read_page_slice<KV: KVStore>(&mut self, kv: &KV, layout: &PageSliceLayout) -> (r: Result<
        Vec<u8>,
        StorageError,
    >)
        requires
            old(self)@.wf(),
        ensures
            final(self)@.wf(),
            match r {
                Ok(bytes) => old(self)@.slice_read::<PH>(*layout, kv@) == Ok::<
                    (CacheView, Seq<u8>),
                    StorageError,
                >((final(self)@, bytes@)),
                Err(e) => old(self)@.slice_read::<PH>(*layout, kv@) == Err::<
                    (CacheView, Seq<u8>),
                    StorageError,
                >(e) && final(self)@ == old(self)@,
            },
    {
        self.cache.read_page_slice(kv, layout)
    }

    /// Writes `data` to the slice `layout` of the pages.
    pub fn write_page_slice<KV: KVStore>(
        &mut self,
        kv: &KV,
        layout: &PageSliceLayout,
        data: &[u8],
    ) -> (r: Result<(), StorageError>)
        requires
            old(self)@.wf(),
        ensures
            final(self)@.wf(),
            match r {
                Ok(_) => old(self)@.slice_written::<PH>(*layout, data@, kv@) == Ok::<
                    CacheView,
                    StorageError,
                >(final(self)@),
                Err(e) => old(self)@.slice_written::<PH>(*layout, data@, kv@) == Err::<
                    CacheView,
                    StorageError,
                >(e) && final(self)@ == old(self)@,
            },
    {
        self.cache.write_page_slice(kv, layout, data)
    }

    /// Commits what was written and returns the new state root.
    pub fn commit<KV: KVStore>(&mut self, kv: &mut KV) -> (new_state: State)
        requires
            old(self)@.wf(),
        ensures
            final(self)@.wf(),
            new_state == old(self)@.flushed::<PH>().next_state::<KH>(),
            final(kv)@ == apply_changes(
                old(kv)@,
                old(self)@.flushed::<PH>().commit_batch::<KH>(),
            ),
            final(self)@ == old(self)@.committed::<KH, PH>(),
    {
        self.cache.commit(kv)
    }

    /// The state root that the storage was opened at or last committed.
    pub fn get_state(&self) -> (state: State)
        ensures
            state == self@.storage.state,
    {
        self.cache.get_state()
    }

    /// The digest that the page storage has of the page `page_idx`. Slices
    /// written since the last commit are not in it.
    pub fn get_page_hash(&self, page_idx: PageIndex) -> (r: Result<PageHash, StorageError>)
        ensures
            r == self@.storage.page_hash(page_idx),
    {
        self.cache.get_page_hash(page_idx)
    }
}

/// Opens the storages of contracts over one key-value store.
pub struct StorageBuilder<'a, KV> {
    kv: &'a KV,
    max_resident: Option<usize>,
}

impl<'a, KV: KVStore> StorageBuilder<'a, KV> {
    /// The key-value store that the builder opens storages over.
    pub closed spec fn kv(&self) -> &'a KV {
        self.kv
    }

    /// The greatest number of pages that are resident at a time in the
    /// caches of the storages that the builder opens, if it is limited.
    pub closed spec fn max_resident(&self) -> Option<usize> {
        self.max_resident
    }

    /// The greatest number of pages that are resident at a time in the
    /// cache of a storage of `page_count` pages that the builder opens: the
    /// limit of the builder, or else the number of pages, and at least one.
    pub open spec fn resident_limit(&self, page_count: u16) -> nat {
        let limit = match self.max_resident() {
            Some(max) => max as nat,
            None => page_count as nat,
        };
        if limit == 0 {
            1
        } else {
            limit
        }
    }

    /// A builder over the key-value store `kv`. In the caches of its
    /// storages all pages may be resident at a time.
    pub fn new(kv: &'a KV) -> (builder: Self)
        ensures
            builder.kv() == kv,
            builder.max_resident() is None,
    {
        StorageBuilder { kv, max_resident: None }
    }

    /// The builder with caches in which at most `max_resident` pages are
    /// resident at a time.
    pub fn with_max_resident(self, max_resident: usize) -> (builder: Self)
        ensures
            builder.kv() == self.kv(),
            builder.max_resident() == Some(max_resident),
    {
        StorageBuilder { kv: self.kv, max_resident: Some(max_resident) }
    }

    /// Opens the storage of the contract at `addr`, at `state`, with the
    /// number of pages of `settings`. No page is resident yet.
    pub fn build<KH: KeyHasher, PH: PageHasher>(
        &self,
        addr: &Address,
        state: &State,
        settings: &AppSettings,
    ) -> (r: Result<AppStorage<KH, PH>, StorageError>)
        ensures
            match r {
                Ok(storage) => storage@.wf() && StorageView::opened::<PH>(
                    *addr,
                    *state,
                    settings.page_count as nat,
                    self.kv()@,
                ) == Ok::<StorageView, StorageError>(storage@.storage) && storage@
                    == CacheView::empty(
                    storage@.storage,
                    self.resident_limit(settings.page_count),
                ),
                Err(e) => StorageView::opened::<PH>(
                    *addr,
                    *state,
                    settings.page_count as nat,
                    self.kv()@,
                ) == Err::<StorageView, StorageError>(e),
            },
    {
        match MerklePageStorage::<KH, PH>::new(*addr, self.kv, *state, settings.page_count) {
            Ok(pages) => {
                let cache = match self.max_resident {
                    Some(max) => PageSliceCache::with_max_resident(pages, max),
                    None => PageSliceCache::new(pages),
                };
                Ok(AppStorage::new(cache))
            },
            Err(e) => Err(e),
        }
    }
}

} // verus!
