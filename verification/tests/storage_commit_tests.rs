use svm::app_storage::{AppSettings, DefaultAppStorage, StorageBuilder};
use svm::common::{Address, State};
use svm::error::StorageError;
use svm::hasher::{DefaultKeyHasher, KeyHasher};
use svm::kv::{KVStore, MemKVStore};
use svm::page::{PageHash, PageIndex, PageOffset, PageSliceLayout, PAGE_SIZE};
use svm::testing::{compute_pages_state, concat_pages_hash, default_page_hash, MemMerklePages};

const ZEROS: [u8; 32] = [0; 32];

fn addr() -> Address {
    Address::from(0x11_22_33_44)
}

fn sorted_keys(kv: &MemKVStore) -> Vec<Vec<u8>> {
    let mut keys = kv.keys();
    keys.sort();
    keys
}

fn sorted(keys: &[[u8; 32]]) -> Vec<Vec<u8>> {
    let mut keys: Vec<Vec<u8>> = keys.iter().map(|k| k.to_vec()).collect();
    keys.sort();
    keys
}

fn zero_hash(page_idx: u16) -> PageHash {
    default_page_hash(&addr(), page_idx, &ZEROS)
}

#[test]
fn empty_commit_stores_the_digest_vector() {
    let mut kv = MemKVStore::new();
    let mut storage = MemMerklePages::new(addr(), &kv, State::empty(), 3).unwrap();

    let state = storage.commit(&mut kv);

    let digests = concat_pages_hash(&[zero_hash(0), zero_hash(1), zero_hash(2)]);
    assert_eq!(State(DefaultKeyHasher::hash(&digests)), state);
    assert_eq!(state, storage.get_state());
    assert_eq!(sorted(&[state.0]), sorted_keys(&kv));
    assert_eq!(Some(digests), kv.get(&state.0));
}

#[test]
fn single_write_then_commit() {
    let mut kv = MemKVStore::new();
    let mut storage = MemMerklePages::new(addr(), &kv, State::empty(), 3).unwrap();

    storage.write_page(PageIndex(0), &[10, 20, 30]).unwrap();
    let state = storage.commit(&mut kv);

    let ph0 = default_page_hash(&addr(), 0, &[10, 20, 30]);
    let digests = concat_pages_hash(&[ph0, zero_hash(1), zero_hash(2)]);
    assert_eq!(compute_pages_state(&[ph0, zero_hash(1), zero_hash(2)]), state);
    assert_eq!(Some(digests), kv.get(&state.0));
    assert_eq!(Some(vec![10, 20, 30]), kv.get(&ph0.0));
    assert_eq!(None, kv.get(&zero_hash(1).0));
    assert_eq!(sorted(&[state.0, ph0.0]), sorted_keys(&kv));
}

#[test]
fn two_pages_written() {
    let mut kv = MemKVStore::new();
    let mut storage = MemMerklePages::new(addr(), &kv, State::empty(), 3).unwrap();

    storage.write_page(PageIndex(0), &[10, 20, 30]).unwrap();
    storage.write_page(PageIndex(1), &[40, 50, 60]).unwrap();
    let state = storage.commit(&mut kv);

    let ph0 = default_page_hash(&addr(), 0, &[10, 20, 30]);
    let ph1 = default_page_hash(&addr(), 1, &[40, 50, 60]);
    assert_eq!(compute_pages_state(&[ph0, ph1, zero_hash(2)]), state);
    assert_eq!(sorted(&[state.0, ph0.0, ph1.0]), sorted_keys(&kv));
    assert_eq!(None, kv.get(&zero_hash(2).0));
}

fn two_commits(kv: &mut MemKVStore) -> (State, State) {
    let mut storage = MemMerklePages::new(addr(), kv, State::empty(), 3).unwrap();
    storage.write_page(PageIndex(0), &[10, 20, 30]).unwrap();
    let state_1 = storage.commit(kv);

    let mut storage = MemMerklePages::new(addr(), kv, state_1, 3).unwrap();
    storage.write_page(PageIndex(0), &[11, 22, 33]).unwrap();
    let state_2 = storage.commit(kv);

    (state_1, state_2)
}

#[test]
fn sequential_commits() {
    let mut kv = MemKVStore::new();
    let (state_1, state_2) = two_commits(&mut kv);

    let ph0_old = default_page_hash(&addr(), 0, &[10, 20, 30]);
    let ph0_new = default_page_hash(&addr(), 0, &[11, 22, 33]);
    assert_ne!(state_1, state_2);
    assert_eq!(sorted(&[state_1.0, state_2.0, ph0_old.0, ph0_new.0]), sorted_keys(&kv));
    assert_eq!(Some(vec![10, 20, 30]), kv.get(&ph0_old.0));
    assert_eq!(Some(vec![11, 22, 33]), kv.get(&ph0_new.0));
    assert_eq!(None, kv.get(&zero_hash(1).0));
    assert_eq!(None, kv.get(&zero_hash(2).0));
}

#[test]
fn rollback_to_the_first_state() {
    let mut kv = MemKVStore::new();
    let (state_1, state_2) = two_commits(&mut kv);

    let storage = MemMerklePages::new(addr(), &kv, state_1, 3).unwrap();
    assert_eq!(Ok(Some(vec![10, 20, 30])), storage.read_page(&kv, PageIndex(0)));
    assert_eq!(state_1, storage.get_state());
    assert_eq!(
        Ok(default_page_hash(&addr(), 0, &[10, 20, 30])),
        storage.get_page_hash(PageIndex(0))
    );

    let storage = MemMerklePages::new(addr(), &kv, state_2, 3).unwrap();
    assert_eq!(Ok(Some(vec![11, 22, 33])), storage.read_page(&kv, PageIndex(0)));
    assert_eq!(Ok(None), storage.read_page(&kv, PageIndex(1)));
    assert_eq!(state_2, storage.get_state());
}

#[test]
fn slice_write_within_page() {
    let mut kv = MemKVStore::new();
    let settings = AppSettings { page_count: 3 };

    let mut storage: DefaultAppStorage =
        StorageBuilder::new(&kv).build(&addr(), &State::empty(), &settings).unwrap();

    let layout = PageSliceLayout::new(PageIndex(0), PageOffset(5), 3);
    storage.write_page_slice(&kv, &layout, &[0xAA, 0xBB, 0xCC]).unwrap();
    let state = storage.commit(&mut kv);
    assert_eq!(state, storage.get_state());

    let mut reopened: DefaultAppStorage =
        StorageBuilder::new(&kv).build(&addr(), &state, &settings).unwrap();

    assert_eq!(Ok(vec![0xAA, 0xBB, 0xCC]), reopened.read_page_slice(&kv, &layout));
    let head = PageSliceLayout::new(PageIndex(0), PageOffset(0), 5);
    assert_eq!(Ok(vec![0, 0, 0, 0, 0]), reopened.read_page_slice(&kv, &head));

    // the page is stored whole
    let mut page = vec![0u8; PAGE_SIZE];
    page[5] = 0xAA;
    page[6] = 0xBB;
    page[7] = 0xCC;
    let ph0 = default_page_hash(&addr(), 0, &page);
    assert_eq!(Ok(ph0), reopened.get_page_hash(PageIndex(0)));
    assert_eq!(Some(page), kv.get(&ph0.0));
}

#[test]
fn open_at_missing_state_is_state_not_found() {
    let kv = MemKVStore::new();
    let r = MemMerklePages::new(addr(), &kv, State([9; 32]), 3);
    assert!(matches!(r, Err(StorageError::StateNotFound)));
}

#[test]
fn open_with_wrong_number_of_digests_is_state_not_found() {
    let mut kv = MemKVStore::new();
    let mut storage = MemMerklePages::new(addr(), &kv, State::empty(), 3).unwrap();
    let state = storage.commit(&mut kv);

    assert!(MemMerklePages::new(addr(), &kv, state, 3).is_ok());
    assert!(matches!(
        MemMerklePages::new(addr(), &kv, state, 2),
        Err(StorageError::StateNotFound)
    ));
    assert!(matches!(
        MemMerklePages::new(addr(), &kv, state, 4),
        Err(StorageError::StateNotFound)
    ));
}

#[test]
fn page_index_beyond_count_is_out_of_range() {
    let kv = MemKVStore::new();
    let mut storage = MemMerklePages::new(addr(), &kv, State::empty(), 3).unwrap();

    assert_eq!(Err(StorageError::OutOfRange), storage.write_page(PageIndex(3), &[1]));
    assert_eq!(Err(StorageError::OutOfRange), storage.read_page(&kv, PageIndex(3)));
    assert_eq!(Err(StorageError::OutOfRange), storage.get_page_hash(PageIndex(3)));
    assert_eq!(0, storage.modified_pages_count());
    assert!(storage.write_page(PageIndex(2), &[1]).is_ok());
}

#[test]
fn reading_a_written_page_is_a_dirty_read() {
    let kv = MemKVStore::new();
    let mut storage = MemMerklePages::new(addr(), &kv, State::empty(), 3).unwrap();

    storage.write_page(PageIndex(1), &[1, 2, 3]).unwrap();
    assert_eq!(Err(StorageError::DirtyReadAttempt), storage.read_page(&kv, PageIndex(1)));
    assert_eq!(Ok(None), storage.read_page(&kv, PageIndex(0)));
}

#[test]
fn digest_without_bytes_is_page_bytes_missing() {
    // a state whose first page has a digest that the store has no bytes for
    let mut kv = MemKVStore::new();
    let stray = PageHash([0x5A; 32]);
    let digests = concat_pages_hash(&[stray, zero_hash(1)]);
    let state = State([1; 32]);
    kv.store(&[(&state.0, &digests)]);

    let storage = MemMerklePages::new(addr(), &kv, state, 2).unwrap();
    assert_eq!(Ok(stray), storage.get_page_hash(PageIndex(0)));
    assert_eq!(Err(StorageError::PageBytesMissing), storage.read_page(&kv, PageIndex(0)));
    assert_eq!(Ok(None), storage.read_page(&kv, PageIndex(1)));
}

#[test]
fn zero_sized_storage_commits() {
    let mut kv = MemKVStore::new();
    let mut storage = MemMerklePages::new(addr(), &kv, State::empty(), 0).unwrap();
    let state = storage.commit(&mut kv);

    assert_eq!(State(DefaultKeyHasher::hash(&[])), state);
    assert_eq!(Some(vec![]), kv.get(&state.0));
    assert!(MemMerklePages::new(addr(), &kv, state, 0).is_ok());
}
