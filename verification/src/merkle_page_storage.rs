//! The page storage of one contract. It knows the digest of every page at
//! the state it was opened at, buffers written pages, and on commit derives
//! the next state root and persists it with the written pages.

use std::marker::PhantomData;
use vstd::prelude::*;
use vstd::std_specs::cmp::PartialEqSpecImpl;
use crate::bytes::{slices_equal, zeros};
use crate::common::{Address, State};
use crate::error::StorageError;
use crate::hasher::{KeyHasher, PageHasher};
use crate::kv::{apply_changes, changes_view, KVStore};
use crate::page::{lemma_page_hash_ext, PageHash, PageIndex};

verus! {

/// A key of the key-value store under the page storage: a state root or a
/// page digest.
#[derive(Debug, Copy, Clone, Hash)]
pub struct KVStoreKey(pub [u8; 32]);

impl View for KVStoreKey {
    type V = Seq<u8>;

    open spec fn view(&self) -> Seq<u8> {
        self.0@
    }
}

impl KVStoreKey {
    /// The bytes of the key.
    pub fn as_ref(&self) -> (s: &[u8])
        ensures
            s@ == self@,
    {
        self.0.as_slice()
    }
}

impl PartialEq for KVStoreKey {
    fn eq(&self, other: &KVStoreKey) -> (r: bool) {
        slices_equal(self.0.as_slice(), other.0.as_slice())
    }
}

impl Eq for KVStoreKey {}

impl PartialEqSpecImpl for KVStoreKey {
    open spec fn obeys_eq_spec() -> bool {
        true
    }

    open spec fn eq_spec(&self, other: &KVStoreKey) -> bool {
        self@ == other@
    }
}

/// What the storage knows of one page.
pub enum PageSlot {
    /// The page is as the key-value store has it under `hash`, or is an
    /// implicit zero page.
    Clean { hash: PageHash },
    /// The page was written: `data` are its bytes, `hash` is their digest
    /// and `prior` the digest that the page had when it was last clean.
    Dirty { hash: PageHash, data: Seq<u8>, prior: PageHash },
}

impl PageSlot {
    /// The digest of the page as it is now.
    pub open spec fn hash(self) -> PageHash {
        match self {
            PageSlot::Clean { hash } => hash,
            PageSlot::Dirty { hash, .. } => hash,
        }
    }

    /// The digest of the page when it was last clean.
    pub open spec fn prior(self) -> PageHash {
        match self {
            PageSlot::Clean { hash } => hash,
            PageSlot::Dirty { prior, .. } => prior,
        }
    }
}

/// What a page storage holds: the contract it belongs to, the state root it
/// stands at and one slot for each page.
pub struct StorageView {
    /// The address of the contract.
    pub addr: Address,
    /// The state root that the storage was opened at or last committed.
    pub state: State,
    /// The slots of the pages, by page index.
    pub slots: Seq<PageSlot>,
}

/// The number of zero bytes whose digest is the digest of a page that was
/// never written.
pub const ZERO_PAGE_INPUT_LEN: usize = 32;

/// The digest of the page `page_idx` of a contract that was never written.
pub open spec fn zero_page_hash<PH: PageHasher>(addr: Address, page_idx: PageIndex) -> PageHash {
    PH::spec_hash(addr, page_idx, zeros(ZERO_PAGE_INPUT_LEN as nat))
}

/// The digest whose bytes are `bytes`.
pub open spec fn page_hash_of(bytes: Seq<u8>) -> PageHash {
    choose|h: PageHash| h@ == bytes
}

/// A digest is the digest of its own bytes.
pub proof fn lemma_page_hash_of(h: PageHash)
    ensures
        page_hash_of(h@) == h,
{
    let c = page_hash_of(h@);
    assert(c@ == h@);
    lemma_page_hash_ext(c, h);
}

/// The concatenation of digests.
pub open spec fn concat_hashes(hashes: Seq<PageHash>) -> Seq<u8>
    decreases hashes.len(),
{
    if hashes.len() == 0 {
        Seq::empty()
    } else {
        concat_hashes(hashes.drop_last()) + hashes.last()@
    }
}

/// The digests of the pages of `slots`, by page index.
pub open spec fn slot_hashes(slots: Seq<PageSlot>) -> Seq<PageHash> {
    Seq::new(slots.len(), |i: int| slots[i].hash())
}

/// The written pages of `slots` as changes of the key-value store: for each
/// dirty slot, by page index, its bytes under its digest.
pub open spec fn dirty_changes(slots: Seq<PageSlot>) -> Seq<(Seq<u8>, Seq<u8>)>
    decreases slots.len(),
{
    if slots.len() == 0 {
        Seq::empty()
    } else {
        let rest = dirty_changes(slots.drop_last());
        match slots.last() {
            PageSlot::Clean { .. } => rest,
            PageSlot::Dirty { hash, data, .. } => rest.push((hash@, data)),
        }
    }
}

/// The number of dirty slots of `slots`.
pub open spec fn dirty_count(slots: Seq<PageSlot>) -> nat
    decreases slots.len(),
{
    if slots.len() == 0 {
        0
    } else {
        dirty_count(slots.drop_last()) + if slots.last() is Dirty {
            1nat
        } else {
            0nat
        }
    }
}

/// The slots of a contract that has never been committed.
pub open spec fn fresh_slots<PH: PageHasher>(addr: Address, page_count: nat) -> Seq<PageSlot> {
    Seq::new(
        page_count,
        |i: int| PageSlot::Clean { hash: zero_page_hash::<PH>(addr, PageIndex(i as u16)) },
    )
}

/// The slots that a digest vector describes: one clean slot for every
/// thirty-two bytes.
pub open spec fn slots_of_digests(digests: Seq<u8>, page_count: nat) -> Seq<PageSlot> {
    Seq::new(
        page_count,
        |i: int| PageSlot::Clean { hash: page_hash_of(digests.subrange(32 * i, 32 * i + 32)) },
    )
}

impl StorageView {
    /// The storage of `page_count` pages of the contract at `addr`, opened at
    /// `state` over the key-value store `kv`. At the all-zero state every
    /// page has its zero-page digest. At another state the digests are those
    /// that `kv` holds under the state root.
    pub open spec fn opened<PH: PageHasher>(
        addr: Address,
        state: State,
        page_count: nat,
        kv: Map<Seq<u8>, Seq<u8>>,
    ) -> Result<StorageView, StorageError> {
        if state@ == zeros(32) {
            Ok(StorageView { addr, state, slots: fresh_slots::<PH>(addr, page_count) })
        } else if kv.contains_key(state@) && kv[state@].len() == 32 * page_count {
            Ok(StorageView { addr, state, slots: slots_of_digests(kv[state@], page_count) })
        } else {
            Err(StorageError::StateNotFound)
        }
    }

    /// The number of pages.
    pub open spec fn page_count(self) -> nat {
        self.slots.len()
    }

    /// The digest of the page `page_idx`.
    pub open spec fn page_hash(self, page_idx: PageIndex) -> Result<PageHash, StorageError> {
        if page_idx.0 < self.slots.len() {
            Ok(self.slots[page_idx.0 as int].hash())
        } else {
            Err(StorageError::OutOfRange)
        }
    }

    /// What reading the page `page_idx` over the key-value store `kv` gives:
    /// the bytes that `kv` holds under the page's digest, or nothing for a
    /// page that has its zero-page digest and no bytes in `kv`.
    pub open spec fn read<PH: PageHasher>(
        self,
        page_idx: PageIndex,
        kv: Map<Seq<u8>, Seq<u8>>,
    ) -> Result<Option<Seq<u8>>, StorageError> {
        if page_idx.0 >= self.slots.len() {
            Err(StorageError::OutOfRange)
        } else {
            match self.slots[page_idx.0 as int] {
                PageSlot::Dirty { .. } => Err(StorageError::DirtyReadAttempt),
                PageSlot::Clean { hash } => {
                    if kv.contains_key(hash@) {
                        Ok(Some(kv[hash@]))
                    } else if hash == zero_page_hash::<PH>(self.addr, page_idx) {
                        Ok(None)
                    } else {
                        Err(StorageError::PageBytesMissing)
                    }
                },
            }
        }
    }

    /// The bytes that were written to the page `page_idx` and are not yet
    /// committed, if there are any.
    pub open spec fn written_data(self, page_idx: PageIndex) -> Option<Seq<u8>> {
        if page_idx.0 < self.slots.len() {
            match self.slots[page_idx.0 as int] {
                PageSlot::Dirty { data, .. } => Some(data),
                PageSlot::Clean { .. } => None,
            }
        } else {
            None
        }
    }

    /// The storage after `data` was written to the page `page_idx`: the
    /// slot is dirty with the digest of `data`, and remembers the digest
    /// that the page had when it was last clean.
    pub open spec fn written<PH: PageHasher>(self, page_idx: PageIndex, data: Seq<u8>) -> StorageView {
        StorageView {
            slots: self.slots.update(
                page_idx.0 as int,
                PageSlot::Dirty {
                    hash: PH::spec_hash(self.addr, page_idx, data),
                    data,
                    prior: self.slots[page_idx.0 as int].prior(),
                },
            ),
            ..self
        }
    }

    /// The storage after all written pages were discarded: every slot is
    /// clean with the digest that it had when it was last clean.
    pub open spec fn cleared(self) -> StorageView {
        StorageView {
            slots: Seq::new(
                self.slots.len(),
                |i: int| PageSlot::Clean { hash: self.slots[i].prior() },
            ),
            ..self
        }
    }

    /// The digest vector: the digests of all pages, by page index.
    pub open spec fn digests(self) -> Seq<u8> {
        concat_hashes(slot_hashes(self.slots))
    }

    /// The state root that a commit gives: the digest of the digest vector.
    pub open spec fn next_state<KH: KeyHasher>(self) -> State {
        State(KH::spec_hash(self.digests()))
    }

    /// The batch that a commit writes to the key-value store: first the
    /// digest vector under the next state root, then the written pages
    /// under their digests, by page index.
    pub open spec fn commit_batch<KH: KeyHasher>(self) -> Seq<(Seq<u8>, Seq<u8>)> {
        seq![(self.next_state::<KH>()@, self.digests())] + dirty_changes(self.slots)
    }

    /// The storage after a commit: it stands at the next state root and
    /// every slot is clean with the digest that it had.
    pub open spec fn committed<KH: KeyHasher>(self) -> StorageView {
        StorageView {
            state: self.next_state::<KH>(),
            slots: Seq::new(
                self.slots.len(),
                |i: int| PageSlot::Clean { hash: self.slots[i].hash() },
            ),
            ..self
        }
    }
}

/// One page of the storage, as it is held in memory.
#[derive(Debug)]
pub enum MerklePage {
    /// The page has not been written since the storage was opened or last
    /// committed.
    NotModified(PageHash),
    /// The page was written: its digest, its bytes and the digest that it
    /// had before the first write.
    Modified(PageHash, Vec<u8>, PageHash),
}

impl View for MerklePage {
    type V = PageSlot;

    open spec fn view(&self) -> PageSlot {
        match self {
            MerklePage::NotModified(hash) => PageSlot::Clean { hash: *hash },
            MerklePage::Modified(hash, data, prior) => PageSlot::Dirty {
                hash: *hash,
                data: data@,
                prior: *prior,
            },
        }
    }
}

/// The views of a list of pages.
pub open spec fn pages_view(pages: Seq<MerklePage>) -> Seq<PageSlot> {
    Seq::new(pages.len(), |i: int| pages[i]@)
}

/// The keys and values of a list of changes, as sequences of bytes.
pub open spec fn changeset_view(changes: Seq<(KVStoreKey, &[u8])>) -> Seq<(Seq<u8>, Seq<u8>)> {
    Seq::new(changes.len(), |i: int| (changes[i].0@, changes[i].1@))
}

/// The page storage of one contract, aware of the state it stands at. `KH`
/// digests the digest vector into the state root, `PH` digests the pages.
pub struct MerklePageStorage<KH, PH> {
    state: State,
    addr: Address,
    pages: Vec<MerklePage>,
    marker: PhantomData<(KH, PH)>,
}

impl<KH: KeyHasher, PH: PageHasher> View for MerklePageStorage<KH, PH> {
    type V = StorageView;

    closed spec fn view(&self) -> StorageView {
        StorageView { addr: self.addr, state: self.state, slots: pages_view(self.pages@) }
    }
}

impl<KH: KeyHasher, PH: PageHasher> MerklePageStorage<KH, PH> {
    /// Tells whether the page count fits a page index.
    pub open spec fn wf(&self) -> bool {
        self@.slots.len() <= u16::MAX
    }

    /// Opens the storage of the `pages_count` pages of the contract at
    /// `addr`, at `state`, over the key-value store `kv`.
    pub fn new<KV: KVStore>(addr: Address, kv: &KV, state: State, pages_count: u16) -> (r: Result<
        Self,
        StorageError,
    >)
        ensures
            match r {
                Ok(storage) => storage.wf() && StorageView::opened::<PH>(
                    addr,
                    state,
                    pages_count as nat,
                    kv@,
                ) == Ok::<StorageView, StorageError>(storage@),
                Err(e) => StorageView::opened::<PH>(addr, state, pages_count as nat, kv@) == Err::<
                    StorageView,
                    StorageError,
                >(e),
            },
    {
        match Self::init_pages_state(addr, kv, state, pages_count) {
            Ok(pages) => Ok(MerklePageStorage { state, addr, pages, marker: PhantomData }),
            Err(e) => Err(e),
        }
    }

    /// The slots of a storage opened at `state`: the zero-page digests at
    /// the all-zero state, else the digests that `kv` holds under `state`.
    fn init_pages_state<KV: KVStore>(addr: Address, kv: &KV, state: State, pages_count: u16) -> (r:
        Result<Vec<MerklePage>, StorageError>)
        ensures
            match r {
                Ok(pages) => StorageView::opened::<PH>(addr, state, pages_count as nat, kv@) == Ok::<
                    StorageView,
                    StorageError,
                >(StorageView { addr, state, slots: pages_view(pages@) }),
                Err(e) => StorageView::opened::<PH>(addr, state, pages_count as nat, kv@) == Err::<
                    StorageView,
                    StorageError,
                >(e),
            },
    {
        let mut pages: Vec<MerklePage> = Vec::with_capacity(pages_count as usize);
        if state.is_empty() {
            let mut page_idx: u16 = 0;
            while page_idx < pages_count
                invariant
                    page_idx <= pages_count,
                    pages@.len() == page_idx,
                    forall|i: int|
                        0 <= i < page_idx ==> (#[trigger] pages@[i])@ == (PageSlot::Clean {
                            hash: zero_page_hash::<PH>(addr, PageIndex(i as u16)),
                        }),
                decreases pages_count - page_idx,
            {
                let ph = Self::compute_zero_page_hash(addr, PageIndex(page_idx));
                pages.push(MerklePage::NotModified(ph));
                page_idx += 1;
            }
            assert(pages_view(pages@) =~= fresh_slots::<PH>(addr, pages_count as nat));
            Ok(pages)
        } else {
            match kv.get(state.as_slice()) {
                Some(v) => {
                    if v.len() != 32 * (pages_count as usize) {
                        return Err(StorageError::StateNotFound);
                    }
                    let mut page_idx: u16 = 0;
                    while page_idx < pages_count
                        invariant
                            page_idx <= pages_count,
                            pages@.len() == page_idx,
                            v@.len() == 32 * pages_count,
                            forall|i: int|
                                0 <= i < page_idx ==> (#[trigger] pages@[i])@ == (PageSlot::Clean {
                                    hash: page_hash_of(v@.subrange(32 * i, 32 * i + 32)),
                                }),
                        decreases pages_count - page_idx,
                    {
                        let ph = PageHash::from_chunk(v.as_slice(), 32 * (page_idx as usize));
                        proof {
                            lemma_page_hash_of(ph);
                        }
                        pages.push(MerklePage::NotModified(ph));
                        page_idx += 1;
                    }
                    assert(pages_view(pages@) =~= slots_of_digests(v@, pages_count as nat));
                    Ok(pages)
                },
                None => Err(StorageError::StateNotFound),
            }
        }
    }

    /// Computes the digest of the page `page_idx` when it holds `page_data`.
    fn compute_page_hash(addr: Address, page_idx: PageIndex, page_data: &[u8]) -> (h: PageHash)
        ensures
            h == PH::spec_hash(addr, page_idx, page_data@),
    {
        PH::hash(addr, page_idx, page_data)
    }

    /// Computes the digest of the page `page_idx` when it was never written.
    fn compute_zero_page_hash(addr: Address, page_idx: PageIndex) -> (h: PageHash)
        ensures
            h == zero_page_hash::<PH>(addr, page_idx),
    {
        let zero_input: [u8; 32] = [0u8; 32];
        assert(zero_input@ =~= zeros(ZERO_PAGE_INPUT_LEN as nat));
        Self::compute_page_hash(addr, page_idx, zero_input.as_slice())
    }

    /// The state root that the storage was opened at or last committed.
    pub fn get_state(&self) -> (state: State)
        ensures
            state == self@.state,
    {
        self.state
    }

    /// The number of pages.
    pub fn pages_count(&self) -> (n: u16)
        requires
            self.wf(),
        ensures
            n == self@.page_count(),
    {
        self.pages.len() as u16
    }

    /// The digest of the page `page_idx`, written or not.
    pub fn get_page_hash(&self, page_idx: PageIndex) -> (r: Result<PageHash, StorageError>)
        ensures
            r == self@.page_hash(page_idx),
    {
        if (page_idx.0 as usize) < self.pages.len() {
            match &self.pages[page_idx.0 as usize] {
                MerklePage::NotModified(ph) => Ok(*ph),
                MerklePage::Modified(ph, _, _) => Ok(*ph),
            }
        } else {
            Err(StorageError::OutOfRange)
        }
    }

    /// The number of pages that were written and not yet committed.
    pub fn modified_pages_count(&self) -> (n: usize)
        ensures
            n == dirty_count(self@.slots),
    {
        let len: usize = self.pages.len();
        let mut n: usize = 0;
        let mut i: usize = 0;
        assert(pages_view(self.pages@).take(0) =~= Seq::empty());
        while i < len
            invariant
                i <= len,
                len == self.pages@.len(),
                n <= i,
                n == dirty_count(pages_view(self.pages@).take(i as int)),
            decreases len - i,
        {
            proof {
                let done = pages_view(self.pages@).take(i + 1);
                assert(done.drop_last() =~= pages_view(self.pages@).take(i as int));
                assert(done.last() == self.pages@[i as int]@);
            }
            match &self.pages[i] {
                MerklePage::NotModified(_) => {},
                MerklePage::Modified(_, _, _) => {
                    n += 1;
                },
            }
            i += 1;
        }
        assert(pages_view(self.pages@).take(len as int) =~= pages_view(self.pages@));
        n
    }

    /// The next state root, the digest vector and the written pages as
    /// changes of the key-value store.
    fn prepare_changeset(&self) -> (r: (State, Vec<u8>, Vec<(KVStoreKey, &[u8])>))
        ensures
            r.0 == self@.next_state::<KH>(),
            r.1@ == self@.digests(),
            changeset_view(r.2@) == dirty_changes(self@.slots),
    {
        let mut changes: Vec<(KVStoreKey, &[u8])> = Vec::new();
        let mut joined_pages_hash: Vec<u8> = Vec::new();
        let len: usize = self.pages.len();
        let mut i: usize = 0;
        let ghost slots = pages_view(self.pages@);
        assert(slots.take(0) =~= Seq::empty());
        assert(slot_hashes(Seq::<PageSlot>::empty()) =~= Seq::empty());
        assert(changeset_view(changes@) =~= Seq::empty());
        while i < len
            invariant
                i <= len,
                len == self.pages@.len(),
                slots == pages_view(self.pages@),
                joined_pages_hash@ == concat_hashes(slot_hashes(slots.take(i as int))),
                changeset_view(changes@) == dirty_changes(slots.take(i as int)),
            decreases len - i,
        {
            proof {
                let done = slots.take(i + 1);
                assert(done.drop_last() =~= slots.take(i as int));
                assert(done.last() == self.pages@[i as int]@);
                assert(slot_hashes(done).drop_last() =~= slot_hashes(slots.take(i as int)));
                assert(slot_hashes(done).last() == self.pages@[i as int]@.hash());
            }
            let ghost before = changeset_view(changes@);
            match &self.pages[i] {
                MerklePage::NotModified(ph) => {
                    joined_pages_hash.extend_from_slice(ph.as_ref());
                    assert(joined_pages_hash@ =~= concat_hashes(
                        slot_hashes(slots.take(i as int)),
                    ) + ph@);
                },
                MerklePage::Modified(ph, data, _) => {
                    let key = KVStoreKey(ph.0);
                    changes.push((key, data.as_slice()));
                    assert(changeset_view(changes@) =~= before.push((ph@, data@)));
                    joined_pages_hash.extend_from_slice(ph.as_ref());
                    assert(joined_pages_hash@ =~= concat_hashes(
                        slot_hashes(slots.take(i as int)),
                    ) + ph@);
                },
            }
            i += 1;
        }
        assert(slots.take(len as int) =~= slots);
        let new_state = State(KH::hash(joined_pages_hash.as_slice()));
        (new_state, joined_pages_hash, changes)
    }

    /// Marks every page as not modified, with the digest that it has.
    fn mark_committed(&mut self)
        ensures
            final(self)@.addr == old(self)@.addr,
            final(self)@.state == old(self)@.state,
            final(self)@.slots == Seq::new(
                old(self)@.slots.len(),
                |i: int| PageSlot::Clean { hash: old(self)@.slots[i].hash() },
            ),
    {
        let len: usize = self.pages.len();
        let mut i: usize = 0;
        while i < len
            invariant
                i <= len,
                len == self.pages@.len(),
                len == old(self).pages@.len(),
                self.addr == old(self).addr,
                self.state == old(self).state,
                forall|j: int|
                    0 <= j < i ==> (#[trigger] self.pages@[j])@ == (PageSlot::Clean {
                        hash: old(self).pages@[j]@.hash(),
                    }),
                forall|j: int| i <= j < len ==> #[trigger] self.pages@[j] == old(self).pages@[j],
            decreases len - i,
        {
            let hash = match &self.pages[i] {
                MerklePage::NotModified(h) => *h,
                MerklePage::Modified(h, _, _) => *h,
            };
            self.pages[i] = MerklePage::NotModified(hash);
            i += 1;
        }
        assert(self@.slots =~= Seq::new(
            old(self)@.slots.len(),
            |i: int| PageSlot::Clean { hash: old(self)@.slots[i].hash() },
        ));
    }

    /// Commits the written pages: derives the next state root from the
    /// digests of all pages, writes the digest vector under it and every
    /// written page under its digest to `kv` in one batch, and makes the
    /// storage stand at the new state with all pages clean.
    pub fn commit<KV: KVStore>(&mut self, kv: &mut KV) -> (new_state: State)
        ensures
            new_state == old(self)@.next_state::<KH>(),
            final(kv)@ == apply_changes(old(kv)@, old(self)@.commit_batch::<KH>()),
            final(self)@ == old(self)@.committed::<KH>(),
            final(self).wf() == old(self).wf(),
    {
        let (new_state, joined_pages_hash, changeset) = self.prepare_changeset();
        let state_key = KVStoreKey(new_state.0);
        let mut entries: Vec<(&[u8], &[u8])> = Vec::new();
        entries.push((state_key.as_ref(), joined_pages_hash.as_slice()));
        let n: usize = changeset.len();
        let mut i: usize = 0;
        assert(changes_view(entries@) =~= seq![(new_state@, joined_pages_hash@)]
            + changeset_view(changeset@).take(0));
        while i < n
            invariant
                i <= n,
                n == changeset@.len(),
                changes_view(entries@) == seq![(new_state@, joined_pages_hash@)] + changeset_view(
                    changeset@,
                ).take(i as int),
            decreases n - i,
        {
            let ghost before = changes_view(entries@);
            entries.push((changeset[i].0.as_ref(), changeset[i].1));
            assert(changes_view(entries@) =~= before.push(changeset_view(changeset@)[i as int]));
            assert(changes_view(entries@) =~= seq![(new_state@, joined_pages_hash@)]
                + changeset_view(changeset@).take(i + 1));
            i += 1;
        }
        assert(changeset_view(changeset@).take(n as int) =~= changeset_view(changeset@));
        kv.store(entries.as_slice());
        self.state = new_state;
        self.mark_committed();
        new_state
    }

    /// Reads the page `page_idx` from the key-value store `kv`.
    pub fn read_page<KV: KVStore>(&self, kv: &KV, page_idx: PageIndex) -> (r: Result<
        Option<Vec<u8>>,
        StorageError,
    >)
        ensures
            match r {
                Ok(Some(data)) => self@.read::<PH>(page_idx, kv@) == Ok::<
                    Option<Seq<u8>>,
                    StorageError,
                >(Some(data@)),
                Ok(None) => self@.read::<PH>(page_idx, kv@) == Ok::<Option<Seq<u8>>, StorageError>(
                    None,
                ),
                Err(e) => self@.read::<PH>(page_idx, kv@) == Err::<Option<Seq<u8>>, StorageError>(
                    e,
                ),
            },
    {
        if (page_idx.0 as usize) >= self.pages.len() {
            return Err(StorageError::OutOfRange);
        }
        match &self.pages[page_idx.0 as usize] {
            MerklePage::Modified(_, _, _) => Err(StorageError::DirtyReadAttempt),
            MerklePage::NotModified(ph) => {
                match kv.get(ph.as_ref()) {
                    Some(data) => Ok(Some(data)),
                    None => {
                        let zero = Self::compute_zero_page_hash(self.addr, page_idx);
                        if *ph == zero {
                            proof {
                                lemma_page_hash_ext(*ph, zero);
                            }
                            Ok(None)
                        } else {
                            Err(StorageError::PageBytesMissing)
                        }
                    },
                }
            },
        }
    }

    /// The bytes that were written to the page `page_idx` and are not yet
    /// committed, if there are any. `read_page` refuses such a page; this is
    /// for the layer that wrote the bytes.
    pub fn written_page(&self, page_idx: PageIndex) -> (r: Option<Vec<u8>>)
        ensures
            match r {
                Some(data) => self@.written_data(page_idx) == Some(data@),
                None => self@.written_data(page_idx) is None,
            },
    {
        if (page_idx.0 as usize) >= self.pages.len() {
            return None;
        }
        match &self.pages[page_idx.0 as usize] {
            MerklePage::Modified(_, data, _) => Some(vstd::slice::slice_to_vec(data.as_slice())),
            MerklePage::NotModified(_) => None,
        }
    }

    /// Writes `page_data` to the page `page_idx`. The bytes stay in memory
    /// until the next commit.
    pub fn write_page(&mut self, page_idx: PageIndex, page_data: &[u8]) -> (r: Result<
        (),
        StorageError,
    >)
        ensures
            final(self).wf() == old(self).wf(),
            match r {
                Ok(_) => page_idx.0 < old(self)@.page_count() && final(self)@ == old(
                    self,
                )@.written::<PH>(page_idx, page_data@),
                Err(e) => page_idx.0 >= old(self)@.page_count() && e == StorageError::OutOfRange
                    && final(self)@ == old(self)@,
            },
    {
        if (page_idx.0 as usize) >= self.pages.len() {
            return Err(StorageError::OutOfRange);
        }
        let ph = Self::compute_page_hash(self.addr, page_idx, page_data);
        let prior = match &self.pages[page_idx.0 as usize] {
            MerklePage::NotModified(h) => *h,
            MerklePage::Modified(_, _, p) => *p,
        };
        let page = MerklePage::Modified(ph, vstd::slice::slice_to_vec(page_data), prior);
        proof {
            assert(pages_view(self.pages@.update(page_idx.0 as int, page)) =~= pages_view(
                self.pages@,
            ).update(page_idx.0 as int, page@));
        }
        self.pages[page_idx.0 as usize] = page;
        Ok(())
    }

    /// Discards all pages that were written and not committed: every page
    /// has again the digest that it had when it was last clean.
    pub fn clear(&mut self)
        ensures
            final(self)@ == old(self)@.cleared(),
            final(self).wf() == old(self).wf(),
    {
        let len: usize = self.pages.len();
        let mut i: usize = 0;
        while i < len
            invariant
                i <= len,
                len == self.pages@.len(),
                len == old(self).pages@.len(),
                self.addr == old(self).addr,
                self.state == old(self).state,
                forall|j: int|
                    0 <= j < i ==> (#[trigger] self.pages@[j])@ == (PageSlot::Clean {
                        hash: old(self).pages@[j]@.prior(),
                    }),
                forall|j: int| i <= j < len ==> #[trigger] self.pages@[j] == old(self).pages@[j],
            decreases len - i,
        {
            let prior = match &self.pages[i] {
                MerklePage::NotModified(h) => *h,
                MerklePage::Modified(_, _, p) => *p,
            };
            self.pages[i] = MerklePage::NotModified(prior);
            i += 1;
        }
        assert(self@.slots =~= old(self)@.cleared().slots);
    }
}

} // verus!
