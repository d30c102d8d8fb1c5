//! What holds of the page storage across operations: commits are
//! determined by what was written, committed pages are read back, older
//! states stay readable, and discarding written pages restores their
//! digests.

use vstd::prelude::*;
use crate::bytes::zeros;
use crate::common::{Address, State};
use crate::error::StorageError;
use crate::hasher::{KeyHasher, PageHasher};
use crate::kv::{
    apply_changes, changes_key, lemma_apply_changes_dom, lemma_apply_changes_last_wins,
    lemma_apply_changes_untouched, lemma_last_change,
};
use crate::merkle_page_storage::{
    concat_hashes, dirty_changes, dirty_count, fresh_slots, lemma_page_hash_of, page_hash_of,
    slot_hashes, slots_of_digests, zero_page_hash, PageSlot, StorageView,
};
use crate::page::{PageHash, PageIndex, PageSliceLayout, PAGE_SIZE};
use crate::page_slice_cache::{
    lemma_evicted_wf, lemma_loaded_wf, lemma_position, page_image, patched, CacheView,
};

verus! {

/// The concatenation of `n` digests has `32 * n` bytes, and its `i`-th
/// group of thirty-two bytes is the `i`-th digest.
pub proof fn lemma_concat_hashes(hashes: Seq<PageHash>)
    ensures
        concat_hashes(hashes).len() == 32 * hashes.len(),
        forall|i: int|
            0 <= i < hashes.len() ==> #[trigger] concat_hashes(hashes).subrange(
                32 * i,
                32 * i + 32,
            ) == hashes[i]@,
    decreases hashes.len(),
{
    if hashes.len() > 0 {
        let rest = hashes.drop_last();
        lemma_concat_hashes(rest);
        let all = concat_hashes(hashes);
        assert(hashes.last()@.len() == 32);
        assert forall|i: int| 0 <= i < hashes.len() implies #[trigger] all.subrange(
            32 * i,
            32 * i + 32,
        ) == hashes[i]@ by {
            if i < rest.len() {
                assert(concat_hashes(rest).subrange(32 * i, 32 * i + 32) == rest[i]@);
                assert(all.subrange(32 * i, 32 * i + 32) =~= concat_hashes(rest).subrange(
                    32 * i,
                    32 * i + 32,
                ));
            } else {
                assert(all.subrange(32 * i, 32 * i + 32) =~= hashes.last()@);
            }
        }
    }
}

/// Two lists of digests with the same concatenation are the same list.
pub proof fn lemma_concat_hashes_injective(a: Seq<PageHash>, b: Seq<PageHash>)
    requires
        concat_hashes(a) == concat_hashes(b),
    ensures
        a == b,
{
    lemma_concat_hashes(a);
    lemma_concat_hashes(b);
    assert(a.len() == b.len());
    assert forall|i: int| 0 <= i < a.len() implies a[i] == b[i] by {
        assert(concat_hashes(a).subrange(32 * i, 32 * i + 32) == a[i]@);
        assert(concat_hashes(b).subrange(32 * i, 32 * i + 32) == b[i]@);
        crate::page::lemma_page_hash_ext(a[i], b[i]);
    }
    assert(a =~= b);
}

/// The slots that the digest vector of a storage describes are the slots of
/// the storage, all clean.
pub proof fn lemma_slots_of_digests(view: StorageView)
    ensures
        view.digests().len() == 32 * view.slots.len(),
        slots_of_digests(view.digests(), view.slots.len()) == Seq::new(
            view.slots.len(),
            |i: int| PageSlot::Clean { hash: view.slots[i].hash() },
        ),
{
    let hashes = slot_hashes(view.slots);
    lemma_concat_hashes(hashes);
    assert forall|i: int| 0 <= i < view.slots.len() implies page_hash_of(
        #[trigger] view.digests().subrange(32 * i, 32 * i + 32),
    ) == view.slots[i].hash() by {
        assert(view.digests().subrange(32 * i, 32 * i + 32) == hashes[i]@);
        lemma_page_hash_of(hashes[i]);
    }
    assert(slots_of_digests(view.digests(), view.slots.len()) =~= Seq::new(
        view.slots.len(),
        |i: int| PageSlot::Clean { hash: view.slots[i].hash() },
    ));
}

/// The storage after the page writes `writes` were made in order. A write
/// to a page index that the storage does not have changes nothing.
pub open spec fn apply_writes<PH: PageHasher>(
    view: StorageView,
    writes: Seq<(PageIndex, Seq<u8>)>,
) -> StorageView
    decreases writes.len(),
{
    if writes.len() == 0 {
        view
    } else {
        let before = apply_writes::<PH>(view, writes.drop_last());
        let (page_idx, data) = writes.last();
        if page_idx.0 < before.slots.len() {
            before.written::<PH>(page_idx, data)
        } else {
            before
        }
    }
}

/// Writes change neither the address, the state nor the number of pages,
/// and they keep for every page the digest that it had when it was last
/// clean.
pub proof fn lemma_apply_writes_keeps<PH: PageHasher>(
    view: StorageView,
    writes: Seq<(PageIndex, Seq<u8>)>,
)
    ensures
        apply_writes::<PH>(view, writes).addr == view.addr,
        apply_writes::<PH>(view, writes).state == view.state,
        apply_writes::<PH>(view, writes).slots.len() == view.slots.len(),
        forall|i: int|
            0 <= i < view.slots.len() ==> (#[trigger] apply_writes::<PH>(
                view,
                writes,
            ).slots[i]).prior() == view.slots[i].prior(),
    decreases writes.len(),
{
    if writes.len() > 0 {
        lemma_apply_writes_keeps::<PH>(view, writes.drop_last());
    }
}

/// Two storages of one contract that were opened at the same
/// state, over key-value stores that hold the same under that state root,
/// and that received the same page writes in the same order, commit to the
/// same state root with the same batch.
pub proof fn lemma_commit_deterministic<KH: KeyHasher, PH: PageHasher>(
    addr: Address,
    state: State,
    page_count: nat,
    kv_a: Map<Seq<u8>, Seq<u8>>,
    kv_b: Map<Seq<u8>, Seq<u8>>,
    writes: Seq<(PageIndex, Seq<u8>)>,
)
    requires
        kv_a.contains_key(state@) == kv_b.contains_key(state@),
        kv_a.contains_key(state@) ==> kv_a[state@] == kv_b[state@],
    ensures
        StorageView::opened::<PH>(addr, state, page_count, kv_a) == StorageView::opened::<PH>(
            addr,
            state,
            page_count,
            kv_b,
        ),
        match (
            StorageView::opened::<PH>(addr, state, page_count, kv_a),
            StorageView::opened::<PH>(addr, state, page_count, kv_b),
        ) {
            (Ok(a), Ok(b)) => {
                &&& apply_writes::<PH>(a, writes).next_state::<KH>() == apply_writes::<PH>(
                    b,
                    writes,
                ).next_state::<KH>()
                &&& apply_writes::<PH>(a, writes).commit_batch::<KH>() == apply_writes::<PH>(
                    b,
                    writes,
                ).commit_batch::<KH>()
            },
            _ => true,
        },
{
}

/// The written pages of a storage without dirty slots are none.
pub proof fn lemma_no_dirty_changes(slots: Seq<PageSlot>)
    requires
        dirty_count(slots) == 0,
    ensures
        dirty_changes(slots) == Seq::<(Seq<u8>, Seq<u8>)>::empty(),
        forall|i: int| 0 <= i < slots.len() ==> #[trigger] slots[i] is Clean,
    decreases slots.len(),
{
    if slots.len() > 0 {
        let rest = slots.drop_last();
        lemma_no_dirty_changes(rest);
        assert forall|i: int| 0 <= i < slots.len() implies #[trigger] slots[i] is Clean by {
            if i < rest.len() {
                assert(rest[i] == slots[i]);
            }
        }
    }
}

/// A storage without written pages that stands at the
/// state root of its digest vector commits to the state it stands at, and
/// the commit changes nothing in the storage. Its batch holds the digest
/// vector under that state root and nothing else.
pub proof fn lemma_commit_idempotent<KH: KeyHasher>(view: StorageView)
    requires
        dirty_count(view.slots) == 0,
        view.state == view.next_state::<KH>(),
    ensures
        view.next_state::<KH>() == view.state,
        view.committed::<KH>() == view,
        view.commit_batch::<KH>() == seq![(view.state@, view.digests())],
{
    lemma_no_dirty_changes(view.slots);
    assert(view.committed::<KH>().slots =~= view.slots);
    assert(view.commit_batch::<KH>() =~= seq![(view.state@, view.digests())]);
}

/// After a commit, a second commit without a write in
/// between gives the same state root and leaves the storage as it is.
pub proof fn lemma_commit_twice<KH: KeyHasher>(view: StorageView)
    ensures
        view.committed::<KH>().next_state::<KH>() == view.next_state::<KH>(),
        view.committed::<KH>().committed::<KH>() == view.committed::<KH>(),
        dirty_count(view.committed::<KH>().slots) == 0,
{
    let once = view.committed::<KH>();
    assert(slot_hashes(once.slots) =~= slot_hashes(view.slots));
    assert(once.committed::<KH>().slots =~= once.slots);
    lemma_all_clean(once.slots);
}

/// Slots that are all clean count no dirty slot.
pub proof fn lemma_all_clean(slots: Seq<PageSlot>)
    requires
        forall|i: int| 0 <= i < slots.len() ==> #[trigger] slots[i] is Clean,
    ensures
        dirty_count(slots) == 0,
    decreases slots.len(),
{
    if slots.len() > 0 {
        let rest = slots.drop_last();
        assert forall|i: int| 0 <= i < rest.len() implies #[trigger] rest[i] is Clean by {
            assert(rest[i] == slots[i]);
        }
        lemma_all_clean(rest);
        assert(slots.last() == slots[slots.len() - 1]);
    }
}

/// Discarding the written pages after any page writes gives
/// what discarding gave before them. Where no page was dirty before the
/// writes, the storage is as it was, and every page has its digest of
/// before the writes.
pub proof fn lemma_clear_reverts<PH: PageHasher>(
    view: StorageView,
    writes: Seq<(PageIndex, Seq<u8>)>,
)
    ensures
        apply_writes::<PH>(view, writes).cleared() == view.cleared(),
        dirty_count(view.slots) == 0 ==> apply_writes::<PH>(view, writes).cleared() == view,
        dirty_count(view.slots) == 0 ==> forall|page_idx: PageIndex|
            #[trigger] apply_writes::<PH>(view, writes).cleared().page_hash(page_idx)
                == view.page_hash(page_idx),
{
    lemma_apply_writes_keeps::<PH>(view, writes);
    assert(apply_writes::<PH>(view, writes).cleared().slots =~= view.cleared().slots);
    if dirty_count(view.slots) == 0 {
        lemma_no_dirty_changes(view.slots);
        assert(view.cleared().slots =~= view.slots);
    }
}

/// Tells whether changes of the same key in `batch` have the same value.
pub open spec fn consistent(batch: Seq<(Seq<u8>, Seq<u8>)>) -> bool {
    forall|a: int, b: int|
        0 <= a < b < batch.len() && (#[trigger] batch[a]).0 == (#[trigger] batch[b]).0
            ==> batch[a].1 == batch[b].1
}

/// Tells whether every change of `key` in `batch` writes the value that
/// `kv` already holds under `key`.
pub open spec fn keeps_key(
    kv: Map<Seq<u8>, Seq<u8>>,
    batch: Seq<(Seq<u8>, Seq<u8>)>,
    key: Seq<u8>,
) -> bool {
    forall|a: int|
        0 <= a < batch.len() && (#[trigger] batch[a]).0 == key ==> kv.contains_key(key) && kv[key]
            == batch[a].1
}

/// After a consistent batch the store holds every change of the batch.
pub proof fn lemma_consistent_batch(
    kv: Map<Seq<u8>, Seq<u8>>,
    batch: Seq<(Seq<u8>, Seq<u8>)>,
    a: int,
)
    requires
        consistent(batch),
        0 <= a < batch.len(),
    ensures
        apply_changes(kv, batch).contains_key(batch[a].0),
        apply_changes(kv, batch)[batch[a].0] == batch[a].1,
{
    assert(changes_key(batch, batch[a].0));
    let last = lemma_last_change(batch, batch[a].0);
    lemma_apply_changes_last_wins(kv, batch, last);
}

/// A batch that keeps a key leaves what the store holds under it.
pub proof fn lemma_keeps_key(
    kv: Map<Seq<u8>, Seq<u8>>,
    batch: Seq<(Seq<u8>, Seq<u8>)>,
    key: Seq<u8>,
)
    requires
        keeps_key(kv, batch, key),
    ensures
        apply_changes(kv, batch).contains_key(key) == kv.contains_key(key),
        kv.contains_key(key) ==> apply_changes(kv, batch)[key] == kv[key],
{
    if changes_key(batch, key) {
        let last = lemma_last_change(batch, key);
        lemma_apply_changes_last_wins(kv, batch, last);
    } else {
        lemma_apply_changes_untouched(kv, batch, key);
    }
}

/// Every dirty slot has its change among the written pages.
pub proof fn lemma_dirty_change(slots: Seq<PageSlot>, i: int) -> (a: int)
    requires
        0 <= i < slots.len(),
        slots[i] is Dirty,
    ensures
        0 <= a < dirty_changes(slots).len(),
        dirty_changes(slots)[a] == (slots[i].hash()@, slots[i]->data),
    decreases slots.len(),
{
    let rest = slots.drop_last();
    if i == slots.len() - 1 {
        dirty_changes(rest).len() as int
    } else {
        assert(rest[i] == slots[i]);
        lemma_dirty_change(rest, i)
    }
}

/// What a commit keeps true of the key-value store: afterwards the store
/// holds an entry under the new state root, and where every page that was
/// not written had its bytes in the store or its zero-page digest, every
/// page of the committed storage has.
pub proof fn lemma_commit_keeps_pages<KH: KeyHasher, PH: PageHasher>(
    view: StorageView,
    kv: Map<Seq<u8>, Seq<u8>>,
)
    requires
        forall|page_idx: PageIndex|
            page_idx.0 < view.slots.len() && view.slots[page_idx.0 as int] is Clean ==> (
            #[trigger] view.read::<PH>(page_idx, kv)) is Ok,
    ensures
        apply_changes(kv, view.commit_batch::<KH>()).contains_key(view.next_state::<KH>()@),
        forall|page_idx: PageIndex|
            page_idx.0 < view.slots.len() ==> (#[trigger] view.committed::<KH>().read::<PH>(
                page_idx,
                apply_changes(kv, view.commit_batch::<KH>()),
            )) is Ok,
{
    let batch = view.commit_batch::<KH>();
    let after = apply_changes(kv, batch);
    assert(batch[0].0 == view.next_state::<KH>()@);
    lemma_apply_changes_dom(kv, batch, view.next_state::<KH>()@);
    assert forall|page_idx: PageIndex| page_idx.0 < view.slots.len() implies (
    #[trigger] view.committed::<KH>().read::<PH>(page_idx, after)) is Ok by {
        let i = page_idx.0 as int;
        let hash = view.slots[i].hash();
        lemma_apply_changes_dom(kv, batch, hash@);
        if view.slots[i] is Dirty {
            let a = lemma_dirty_change(view.slots, i);
            assert(batch[a + 1] == dirty_changes(view.slots)[a]);
        } else {
            assert(view.read::<PH>(page_idx, kv) is Ok);
        }
    }
}

/// A storage opened at an older state reads the same
/// pages after a batch was written to the key-value store as before it,
/// where the batch keeps what the store holds under the older state root
/// (unless that is the all-zero state, which is not looked up) and under
/// the digests of the pages of the older state.
pub proof fn lemma_rollback_isolation<PH: PageHasher>(
    addr: Address,
    state: State,
    page_count: nat,
    kv: Map<Seq<u8>, Seq<u8>>,
    batch: Seq<(Seq<u8>, Seq<u8>)>,
)
    requires
        StorageView::opened::<PH>(addr, state, page_count, kv) is Ok,
        state@ != zeros(32) ==> keeps_key(kv, batch, state@),
        forall|i: int|
            0 <= i < page_count ==> keeps_key(
                kv,
                batch,
                (#[trigger] StorageView::opened::<PH>(
                    addr,
                    state,
                    page_count,
                    kv,
                ).unwrap().slots[i]).hash()@,
            ),
    ensures
        StorageView::opened::<PH>(addr, state, page_count, apply_changes(kv, batch))
            == StorageView::opened::<PH>(addr, state, page_count, kv),
        forall|page_idx: PageIndex|
            (#[trigger] StorageView::opened::<PH>(addr, state, page_count, kv).unwrap().read::<PH>(
                page_idx,
                apply_changes(kv, batch),
            )) == StorageView::opened::<PH>(addr, state, page_count, kv).unwrap().read::<PH>(
                page_idx,
                kv,
            ),
{
    let older = StorageView::opened::<PH>(addr, state, page_count, kv).unwrap();
    let after = apply_changes(kv, batch);
    if state@ != zeros(32) {
        lemma_keeps_key(kv, batch, state@);
    }
    assert forall|page_idx: PageIndex| (#[trigger] older.read::<PH>(page_idx, after))
        == older.read::<PH>(page_idx, kv) by {
        if page_idx.0 < older.slots.len() {
            let slot = older.slots[page_idx.0 as int];
            lemma_keeps_key(kv, batch, slot.hash()@);
        }
    }
}

/// After a commit, a storage opened at the new state root over
/// the key-value store has the digests of the committed storage, and it
/// reads every page that was written as it was written and every other
/// page as it read before the commit. This holds where the new state root
/// is not the all-zero state, changes of the same key in the batch have the
/// same value, and the batch keeps what the store holds under the digests
/// of the pages that were not written.
pub proof fn lemma_commit_round_trip<KH: KeyHasher, PH: PageHasher>(
    view: StorageView,
    kv: Map<Seq<u8>, Seq<u8>>,
)
    requires
        view.next_state::<KH>()@ != zeros(32),
        consistent(view.commit_batch::<KH>()),
        forall|i: int|
            0 <= i < view.slots.len() && (#[trigger] view.slots[i]) is Clean ==> keeps_key(
                kv,
                view.commit_batch::<KH>(),
                view.slots[i].hash()@,
            ),
    ensures
        StorageView::opened::<PH>(
            view.addr,
            view.next_state::<KH>(),
            view.slots.len(),
            apply_changes(kv, view.commit_batch::<KH>()),
        ) == Ok::<StorageView, StorageError>(view.committed::<KH>()),
        forall|page_idx: PageIndex|
            page_idx.0 < view.slots.len() ==> (#[trigger] view.committed::<KH>().read::<PH>(
                page_idx,
                apply_changes(kv, view.commit_batch::<KH>()),
            )) == (match view.slots[page_idx.0 as int] {
                PageSlot::Dirty { data, .. } => Ok::<Option<Seq<u8>>, StorageError>(Some(data)),
                PageSlot::Clean { .. } => view.read::<PH>(page_idx, kv),
            }),
{
    let batch = view.commit_batch::<KH>();
    let after = apply_changes(kv, batch);
    let new_state = view.next_state::<KH>();
    assert(batch[0] == (new_state@, view.digests()));
    lemma_consistent_batch(kv, batch, 0);
    lemma_slots_of_digests(view);
    assert(view.committed::<KH>().slots =~= slots_of_digests(view.digests(), view.slots.len()));
    assert forall|page_idx: PageIndex| page_idx.0 < view.slots.len() implies (
    #[trigger] view.committed::<KH>().read::<PH>(page_idx, after)) == (match view.slots[page_idx.0 as int] {
        PageSlot::Dirty { data, .. } => Ok::<Option<Seq<u8>>, StorageError>(Some(data)),
        PageSlot::Clean { .. } => view.read::<PH>(page_idx, kv),
    }) by {
        let i = page_idx.0 as int;
        let slot = view.slots[i];
        match slot {
            PageSlot::Dirty { hash, data, .. } => {
                let a = lemma_dirty_change(view.slots, i);
                assert(batch[a + 1] == dirty_changes(view.slots)[a]);
                lemma_consistent_batch(kv, batch, a + 1);
            },
            PageSlot::Clean { hash } => {
                lemma_keeps_key(kv, batch, hash@);
            },
        }
    }
}

/// The digests of pages with the contents `contents`, by page index.
pub open spec fn content_hashes<PH: PageHasher>(addr: Address, contents: Seq<Seq<u8>>) -> Seq<
    PageHash,
> {
    Seq::new(contents.len(), |i: int| PH::spec_hash(addr, PageIndex(i as u16), contents[i]))
}

/// The state root of a contract whose pages have the contents `contents`.
pub open spec fn state_root<KH: KeyHasher, PH: PageHasher>(
    addr: Address,
    contents: Seq<Seq<u8>>,
) -> State {
    State(KH::spec_hash(concat_hashes(content_hashes::<PH>(addr, contents))))
}

/// The contents of the pages of a contract that was never written: every
/// page counts as the zero bytes that its zero-page digest is taken of.
pub open spec fn fresh_contents(page_count: nat) -> Seq<Seq<u8>> {
    Seq::new(page_count, |i: int| zeros(crate::merkle_page_storage::ZERO_PAGE_INPUT_LEN as nat))
}

/// The contents of the pages after the page writes `writes` were made in
/// order. A write to a page index that is not there changes nothing.
pub open spec fn contents_after(contents: Seq<Seq<u8>>, writes: Seq<(PageIndex, Seq<u8>)>) -> Seq<
    Seq<u8>,
>
    decreases writes.len(),
{
    if writes.len() == 0 {
        contents
    } else {
        let before = contents_after(contents, writes.drop_last());
        let (page_idx, data) = writes.last();
        if page_idx.0 < before.len() {
            before.update(page_idx.0 as int, data)
        } else {
            before
        }
    }
}

/// The digests of a fresh storage after page writes are the digests of the
/// contents that the writes give, and so a commit gives the state root of
/// these contents.
pub proof fn lemma_state_of_contents<KH: KeyHasher, PH: PageHasher>(
    addr: Address,
    state: State,
    page_count: nat,
    writes: Seq<(PageIndex, Seq<u8>)>,
)
    ensures
        slot_hashes(
            apply_writes::<PH>(
                StorageView { addr, state, slots: fresh_slots::<PH>(addr, page_count) },
                writes,
            ).slots,
        ) == content_hashes::<PH>(addr, contents_after(fresh_contents(page_count), writes)),
        apply_writes::<PH>(
            StorageView { addr, state, slots: fresh_slots::<PH>(addr, page_count) },
            writes,
        ).next_state::<KH>() == state_root::<KH, PH>(
            addr,
            contents_after(fresh_contents(page_count), writes),
        ),
    decreases writes.len(),
{
    let fresh = StorageView { addr, state, slots: fresh_slots::<PH>(addr, page_count) };
    let view = apply_writes::<PH>(fresh, writes);
    let contents = contents_after(fresh_contents(page_count), writes);
    if writes.len() == 0 {
        assert(slot_hashes(view.slots) =~= content_hashes::<PH>(addr, contents));
    } else {
        let rest = writes.drop_last();
        lemma_state_of_contents::<KH, PH>(addr, state, page_count, rest);
        lemma_apply_writes_keeps::<PH>(fresh, rest);
        let before = apply_writes::<PH>(fresh, rest);
        let contents_before = contents_after(fresh_contents(page_count), rest);
        assert(slot_hashes(before.slots).len() == content_hashes::<PH>(
            addr,
            contents_before,
        ).len());
        let (page_idx, data) = writes.last();
        assert forall|i: int| 0 <= i < view.slots.len() implies slot_hashes(view.slots)[i]
            == content_hashes::<PH>(addr, contents)[i] by {
            assert(slot_hashes(before.slots)[i] == content_hashes::<PH>(addr, contents_before)[i]);
            if page_idx.0 < before.slots.len() && i == page_idx.0 {
                assert(PageIndex(i as u16) == page_idx);
            }
        }
        assert(slot_hashes(view.slots) =~= content_hashes::<PH>(addr, contents));
    }
}

/// Where the state hasher does not collide on the two
/// digest vectors and the page hasher does not collide on the two contents
/// of any page, page contents with the same state root are the same. So
/// distinct page contents have distinct state roots.
pub proof fn lemma_state_injective<KH: KeyHasher, PH: PageHasher>(
    addr: Address,
    a: Seq<Seq<u8>>,
    b: Seq<Seq<u8>>,
)
    requires
        state_root::<KH, PH>(addr, a) == state_root::<KH, PH>(addr, b),
        KH::spec_hash(concat_hashes(content_hashes::<PH>(addr, a))) == KH::spec_hash(
            concat_hashes(content_hashes::<PH>(addr, b)),
        ) ==> concat_hashes(content_hashes::<PH>(addr, a)) == concat_hashes(
            content_hashes::<PH>(addr, b),
        ),
        forall|i: int|
            0 <= i < a.len() && i < b.len() && PH::spec_hash(addr, PageIndex(i as u16), a[i])
                == PH::spec_hash(addr, PageIndex(i as u16), b[i]) ==> #[trigger] a[i] == b[i],
    ensures
        a == b,
{
    let ha = content_hashes::<PH>(addr, a);
    let hb = content_hashes::<PH>(addr, b);
    lemma_concat_hashes_injective(ha, hb);
    assert(a.len() == b.len());
    assert forall|i: int| 0 <= i < a.len() implies a[i] == b[i] by {
        assert(ha[i] == hb[i]);
    }
    assert(a =~= b);
}

/// The image that the page `page_idx` gets when it becomes resident: the
/// image of its stored bytes.
pub open spec fn fresh_image<PH: PageHasher>(
    cache: CacheView,
    page_idx: PageIndex,
    kv: Map<Seq<u8>, Seq<u8>>,
) -> Result<Seq<u8>, StorageError> {
    match cache.stored_page::<PH>(page_idx, kv) {
        Ok(stored) => Ok(page_image(stored)),
        Err(e) => Err(e),
    }
}

/// The image that the cache gives of the page `page_idx`: the resident
/// image, or else the image of the stored bytes of the page.
pub open spec fn image_of<PH: PageHasher>(
    cache: CacheView,
    page_idx: PageIndex,
    kv: Map<Seq<u8>, Seq<u8>>,
) -> Result<Seq<u8>, StorageError> {
    if page_idx.0 >= cache.buffers.len() {
        Err(StorageError::OutOfRange)
    } else if cache.buffers[page_idx.0 as int] is Some {
        Ok(cache.buffers[page_idx.0 as int].unwrap())
    } else {
        fresh_image::<PH>(cache, page_idx, kv)
    }
}

/// Tells whether every resident image that was not written is the image of
/// the stored bytes of its page, as `kv` has them.
pub open spec fn coherent<PH: PageHasher>(cache: CacheView, kv: Map<Seq<u8>, Seq<u8>>) -> bool {
    forall|i: int|
        0 <= i < cache.buffers.len() && (#[trigger] cache.buffers[i]) is Some && !cache.dirty[i]
            ==> fresh_image::<PH>(cache, PageIndex(i as u16), kv) == Ok::<Seq<u8>, StorageError>(
            cache.buffers[i].unwrap(),
        )
}

/// Making a page resident changes the image of no page, whether or not
/// another page has to make room for it: giving up an image is safe. It
/// keeps the cache coherent with the key-value store.
pub proof fn lemma_access_keeps_images<PH: PageHasher>(
    cache: CacheView,
    page_idx: PageIndex,
    kv: Map<Seq<u8>, Seq<u8>>,
)
    requires
        cache.wf(),
        coherent::<PH>(cache, kv),
        cache.loaded::<PH>(page_idx, kv) is Ok,
    ensures
        cache.loaded::<PH>(page_idx, kv).unwrap().wf(),
        coherent::<PH>(cache.loaded::<PH>(page_idx, kv).unwrap(), kv),
        forall|other: PageIndex|
            #[trigger] image_of::<PH>(cache.loaded::<PH>(page_idx, kv).unwrap(), other, kv)
                == image_of::<PH>(cache, other, kv),
{
    let loaded = cache.loaded::<PH>(page_idx, kv).unwrap();
    let i = page_idx.0 as int;
    lemma_loaded_wf::<PH>(cache, page_idx, kv);
    if cache.buffers[i] is None {
        let full = cache.recency.len() >= cache.max_resident;
        let room = if full {
            cache.evicted::<PH>()
        } else {
            cache
        };
        if full {
            lemma_evicted_wf::<PH>(cache);
        }
        let victim = cache.recency[0] as int;
        assert(full ==> 0 <= victim < cache.buffers.len() && cache.buffers[victim] is Some) by {
            if full {
                assert(cache.recency[0] < cache.buffers.len());
            }
        }
        assert forall|other: PageIndex| #[trigger]
            image_of::<PH>(loaded, other, kv) == image_of::<PH>(cache, other, kv) by {
            let o = other.0 as int;
            if o < cache.buffers.len() {
                assert(PageIndex(o as u16) == other);
                if full && o == victim {
                    if cache.dirty[victim] {
                        assert(page_image(Some(cache.buffers[victim].unwrap()))
                            =~= cache.buffers[victim].unwrap());
                    } else {
                        assert(cache.buffers[victim] is Some && !cache.dirty[victim]);
                    }
                }
            }
        }
        assert forall|j: int|
            0 <= j < loaded.buffers.len() && (#[trigger] loaded.buffers[j]) is Some
                && !loaded.dirty[j] implies fresh_image::<PH>(loaded, PageIndex(j as u16), kv)
            == Ok::<Seq<u8>, StorageError>(loaded.buffers[j].unwrap()) by {
            if j == i {
                assert(PageIndex(j as u16) == page_idx);
            } else {
                assert(cache.buffers[j] is Some && !cache.dirty[j]);
            }
        }
    } else {
        assert forall|j: int|
            0 <= j < loaded.buffers.len() && (#[trigger] loaded.buffers[j]) is Some
                && !loaded.dirty[j] implies fresh_image::<PH>(loaded, PageIndex(j as u16), kv)
            == Ok::<Seq<u8>, StorageError>(loaded.buffers[j].unwrap()) by {
            assert(cache.buffers[j] is Some && !cache.dirty[j]);
        }
    }
}

/// Writing a slice changes the image of its page at the slice and nowhere
/// else, and the image of no other page. It keeps the cache coherent with
/// the key-value store.
pub proof fn lemma_write_changes_one_image<PH: PageHasher>(
    cache: CacheView,
    layout: PageSliceLayout,
    data: Seq<u8>,
    kv: Map<Seq<u8>, Seq<u8>>,
)
    requires
        cache.wf(),
        coherent::<PH>(cache, kv),
        cache.slice_written::<PH>(layout, data, kv) is Ok,
    ensures
        coherent::<PH>(cache.slice_written::<PH>(layout, data, kv).unwrap(), kv),
        image_of::<PH>(cache, layout.page_index, kv) is Ok,
        image_of::<PH>(
            cache.slice_written::<PH>(layout, data, kv).unwrap(),
            layout.page_index,
            kv,
        ) == Ok::<Seq<u8>, StorageError>(
            patched(
                image_of::<PH>(cache, layout.page_index, kv).unwrap(),
                layout.page_offset.0 as int,
                data,
            ),
        ),
        forall|other: PageIndex|
            other != layout.page_index ==> #[trigger] image_of::<PH>(
                cache.slice_written::<PH>(layout, data, kv).unwrap(),
                other,
                kv,
            ) == image_of::<PH>(cache, other, kv),
{
    let loaded = cache.loaded::<PH>(layout.page_index, kv).unwrap();
    let written = cache.slice_written::<PH>(layout, data, kv).unwrap();
    let i = layout.page_index.0 as int;
    lemma_access_keeps_images::<PH>(cache, layout.page_index, kv);
    lemma_loaded_wf::<PH>(cache, layout.page_index, kv);
    assert(image_of::<PH>(loaded, layout.page_index, kv) == image_of::<PH>(
        cache,
        layout.page_index,
        kv,
    ));
    assert forall|other: PageIndex| other != layout.page_index implies #[trigger] image_of::<PH>(
        written,
        other,
        kv,
    ) == image_of::<PH>(cache, other, kv) by {
        assert(image_of::<PH>(loaded, other, kv) == image_of::<PH>(cache, other, kv));
    }
    assert forall|j: int|
        0 <= j < written.buffers.len() && (#[trigger] written.buffers[j]) is Some
            && !written.dirty[j] implies fresh_image::<PH>(written, PageIndex(j as u16), kv)
        == Ok::<Seq<u8>, StorageError>(written.buffers[j].unwrap()) by {
        assert(loaded.buffers[j] is Some && !loaded.dirty[j]);
    }
}

/// After a slice was written, reading the same slice
/// gives the written bytes and leaves the cache as it is.
pub proof fn lemma_read_own_write<PH: PageHasher>(
    cache: CacheView,
    layout: PageSliceLayout,
    data: Seq<u8>,
    kv: Map<Seq<u8>, Seq<u8>>,
)
    requires
        cache.wf(),
        cache.slice_written::<PH>(layout, data, kv) is Ok,
    ensures
        cache.slice_written::<PH>(layout, data, kv).unwrap().slice_read::<PH>(layout, kv) == Ok::<
            (CacheView, Seq<u8>),
            StorageError,
        >((cache.slice_written::<PH>(layout, data, kv).unwrap(), data)),
{
    let written = cache.slice_written::<PH>(layout, data, kv).unwrap();
    let loaded = cache.loaded::<PH>(layout.page_index, kv).unwrap();
    let i = layout.page_index.0 as int;
    lemma_loaded_wf::<PH>(cache, layout.page_index, kv);
    let page = loaded.buffers[i].unwrap();
    assert(patched(page, layout.page_offset.0 as int, data).subrange(
        layout.page_offset.0 as int,
        layout.page_offset.0 + layout.len,
    ) =~= data);
    // the page is the most recently used already
    let last = loaded.recency.len() - 1;
    assert(loaded.recency[last] == layout.page_index.0);
    lemma_position(loaded, last);
    assert(written.recency.remove(last).push(layout.page_index.0) =~= written.recency);
    assert(written.touched(layout.page_index.0) == written);
}

/// What flushing does to the page storage: every page that was written in
/// the cache becomes dirty with its image, and every other page stays as it
/// is.
pub proof fn lemma_flushed<PH: PageHasher>(cache: CacheView, n: nat)
    requires
        cache.wf(),
        n <= cache.buffers.len(),
    ensures
        cache.flushed_upto::<PH>(n).addr == cache.storage.addr,
        cache.flushed_upto::<PH>(n).state == cache.storage.state,
        cache.flushed_upto::<PH>(n).slots.len() == cache.storage.slots.len(),
        forall|i: int|
            0 <= i < cache.storage.slots.len() ==> #[trigger] cache.flushed_upto::<PH>(n).slots[i]
                == (if i < n && cache.dirty[i] {
                PageSlot::Dirty {
                    hash: PH::spec_hash(
                        cache.storage.addr,
                        PageIndex(i as u16),
                        cache.buffers[i].unwrap(),
                    ),
                    data: cache.buffers[i].unwrap(),
                    prior: cache.storage.slots[i].prior(),
                }
            } else {
                cache.storage.slots[i]
            }),
    decreases n,
{
    if n > 0 {
        lemma_flushed::<PH>(cache, (n - 1) as nat);
    }
}

/// After a commit, a cache opened at the new
/// state root reads, in every page that was written, the bytes of the
/// image that was committed. This holds where the round trip of the page
/// storage holds.
pub proof fn lemma_cache_round_trip<KH: KeyHasher, PH: PageHasher>(
    cache: CacheView,
    kv: Map<Seq<u8>, Seq<u8>>,
    layout: PageSliceLayout,
    max_resident: nat,
)
    requires
        cache.wf(),
        max_resident >= 1,
        layout.fits(cache.buffers.len()),
        cache.dirty[layout.page_index.0 as int],
        cache.flushed::<PH>().next_state::<KH>()@ != zeros(32),
        consistent(cache.flushed::<PH>().commit_batch::<KH>()),
        forall|i: int|
            0 <= i < cache.flushed::<PH>().slots.len() && (#[trigger] cache.flushed::<
                PH,
            >().slots[i]) is Clean ==> keeps_key(
                kv,
                cache.flushed::<PH>().commit_batch::<KH>(),
                cache.flushed::<PH>().slots[i].hash()@,
            ),
    ensures
        StorageView::opened::<PH>(
            cache.storage.addr,
            cache.flushed::<PH>().next_state::<KH>(),
            cache.buffers.len(),
            apply_changes(kv, cache.flushed::<PH>().commit_batch::<KH>()),
        ) == Ok::<StorageView, StorageError>(cache.flushed::<PH>().committed::<KH>()),
        CacheView::empty(cache.flushed::<PH>().committed::<KH>(), max_resident).slice_read::<PH>(
            layout,
            apply_changes(kv, cache.flushed::<PH>().commit_batch::<KH>()),
        ) is Ok,
        CacheView::empty(cache.flushed::<PH>().committed::<KH>(), max_resident).slice_read::<PH>(
            layout,
            apply_changes(kv, cache.flushed::<PH>().commit_batch::<KH>()),
        ).unwrap().1 == cache.buffers[layout.page_index.0 as int].unwrap().subrange(
            layout.page_offset.0 as int,
            layout.page_offset.0 + layout.len,
        ),
{
    let flushed = cache.flushed::<PH>();
    let after = apply_changes(kv, flushed.commit_batch::<KH>());
    let i = layout.page_index.0 as int;
    let image = cache.buffers[i].unwrap();
    lemma_flushed::<PH>(cache, cache.buffers.len());
    lemma_commit_round_trip::<KH, PH>(flushed, kv);
    assert(flushed.slots[i] is Dirty);
    assert(flushed.committed::<KH>().read::<PH>(layout.page_index, after) == Ok::<
        Option<Seq<u8>>,
        StorageError,
    >(Some(image)));
    assert(page_image(Some(image)) =~= image);
}

} // verus!
