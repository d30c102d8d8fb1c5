use svm::common::{Address, State};
use svm::error::StorageError;
use svm::hasher::{DefaultKeyHasher, DefaultPageHasher, KeyHasher, PageHasher};
use svm::kv::{KVStore, MemKVStore};
use svm::page::{PageHash, PageIndex};
use svm::testing::MemMerklePages;

fn join_pages_hash(pages_hash: &[PageHash]) -> Vec<u8> {
    let mut joined = Vec::new();
    for ph in pages_hash {
        joined.extend_from_slice(ph.as_ref());
    }
    joined
}

fn assert_same_keys(expected: &[[u8; 32]], kv: &MemKVStore) {
    let mut expected: Vec<Vec<u8>> = expected.iter().map(|k| k.to_vec()).collect();
    let mut actual: Vec<Vec<u8>> = kv.keys();
    expected.sort();
    actual.sort();
    assert_eq!(expected, actual);
}

fn assert_key_value(kv: &MemKVStore, key: [u8; 32], expected: &[u8]) {
    let actual = kv.get(&key).unwrap();
    assert_eq!(expected, &actual[..]);
}

fn assert_no_key(kv: &MemKVStore, key: [u8; 32]) {
    assert!(kv.get(&key).is_none());
}

fn setup(pages_count: u16) -> (Address, MemKVStore, MemMerklePages) {
    let addr = Address::from(0x11_22_33_44);
    let kv = MemKVStore::new();
    let storage = MemMerklePages::new(addr, &kv, State::empty(), pages_count).unwrap();
    (addr, kv, storage)
}

fn open(kv: &MemKVStore, state: State, pages_count: u16) -> (Address, MemMerklePages) {
    let addr = Address::from(0x11_22_33_44);
    let storage = MemMerklePages::new(addr, kv, state, pages_count).unwrap();
    (addr, storage)
}

fn compute_page_hash(addr: Address, page_idx: u16, data: &[u8]) -> PageHash {
    DefaultPageHasher::hash(addr, PageIndex(page_idx), data)
}

fn compute_state(jph: &[u8]) -> State {
    State(DefaultKeyHasher::hash(jph))
}

#[test]
fn first_run_with_no_modifications_no_commit() {
    let (_addr, kv, storage) = setup(3);

    assert_eq!(0, storage.modified_pages_count());
    assert_same_keys(&[], &kv);
    assert_eq!(State::empty(), storage.get_state());
    assert_eq!(Ok(None), storage.read_page(&kv, PageIndex(0)));
}

#[test]
fn first_run_with_no_modifications_with_commit() {
    let (addr, mut kv, mut storage) = setup(3);
    assert_eq!(0, storage.modified_pages_count());
    storage.commit(&mut kv);

    let ph0 = compute_page_hash(addr, 0, &[0; 32]);
    let ph1 = compute_page_hash(addr, 1, &[0; 32]);
    let ph2 = compute_page_hash(addr, 2, &[0; 32]);

    let jph = join_pages_hash(&[ph0, ph1, ph2]);
    let state = compute_state(&jph);

    assert_eq!(state, storage.get_state());
    assert_same_keys(&[state.0], &kv);

    assert_no_key(&kv, ph0.0);
    assert_no_key(&kv, ph1.0);
    assert_no_key(&kv, ph2.0);
    assert_eq!(Ok(None), storage.read_page(&kv, PageIndex(0)));
    assert_eq!(Ok(None), storage.read_page(&kv, PageIndex(1)));
    assert_eq!(Ok(None), storage.read_page(&kv, PageIndex(2)));
    assert_eq!(0, storage.modified_pages_count());
}

#[test]
fn first_run_with_one_modified_page() {
    let (addr, mut kv, mut storage) = setup(3);

    storage.write_page(PageIndex(0), &[10, 20, 30]).unwrap();
    assert_eq!(1, storage.modified_pages_count());
    storage.commit(&mut kv);

    let ph0 = compute_page_hash(addr, 0, &[10, 20, 30]);
    let ph1 = compute_page_hash(addr, 1, &[0; 32]);
    let ph2 = compute_page_hash(addr, 2, &[0; 32]);
    let jph = join_pages_hash(&[ph0, ph1, ph2]);
    let state = compute_state(&jph);

    assert_eq!(state, storage.get_state());
    assert_same_keys(&[state.0, ph0.0], &kv);
    assert_key_value(&kv, state.0, &jph);
    assert_key_value(&kv, ph0.0, &[10, 20, 30]);
    assert_eq!(Ok(Some(vec![10, 20, 30])), storage.read_page(&kv, PageIndex(0)));
    assert_eq!(Ok(None), storage.read_page(&kv, PageIndex(1)));
    assert_eq!(0, storage.modified_pages_count());
}

#[test]
fn first_run_with_two_modified_pages() {
    let (addr, mut kv, mut storage) = setup(2);

    storage.write_page(PageIndex(0), &[10, 20, 30]).unwrap();
    storage.write_page(PageIndex(1), &[40, 50, 60]).unwrap();
    assert_eq!(2, storage.modified_pages_count());
    storage.commit(&mut kv);

    let ph0 = compute_page_hash(addr, 0, &[10, 20, 30]);
    let ph1 = compute_page_hash(addr, 1, &[40, 50, 60]);
    let jph = join_pages_hash(&[ph0, ph1]);
    let state = compute_state(&jph);

    assert_eq!(state, storage.get_state());
    assert_same_keys(&[state.0, ph0.0, ph1.0], &kv);
    assert_key_value(&kv, state.0, &jph);
    assert_key_value(&kv, ph0.0, &[10, 20, 30]);
    assert_key_value(&kv, ph1.0, &[40, 50, 60]);
    assert_eq!(Ok(Some(vec![10, 20, 30])), storage.read_page(&kv, PageIndex(0)));
    assert_eq!(Ok(Some(vec![40, 50, 60])), storage.read_page(&kv, PageIndex(1)));
    assert_eq!(0, storage.modified_pages_count());
}

#[test]
fn second_run_after_first_run_with_no_modifications() {
    // 1st run
    let (_addr, mut kv, mut storage) = setup(3);
    storage.commit(&mut kv);
    let old_state = storage.get_state();

    // 2nd run
    let (addr, mut storage) = open(&kv, old_state, 3);
    storage.write_page(PageIndex(0), &[10, 20, 30]).unwrap();
    storage.write_page(PageIndex(1), &[40, 50, 60]).unwrap();
    storage.commit(&mut kv);

    // modifying pages `0` and `1`
    let ph0 = compute_page_hash(addr, 0, &[10, 20, 30]);
    let ph1 = compute_page_hash(addr, 1, &[40, 50, 60]);
    let ph2 = compute_page_hash(addr, 2, &[0; 32]);
    let jph = join_pages_hash(&[ph0, ph1, ph2]);
    let new_state = compute_state(&jph);

    assert_same_keys(&[old_state.0, new_state.0, ph0.0, ph1.0], &kv);

    assert_key_value(&kv, new_state.0, &jph);
    assert_key_value(&kv, ph0.0, &[10, 20, 30]);
    assert_key_value(&kv, ph1.0, &[40, 50, 60]);
    assert_no_key(&kv, ph2.0);
}

#[test]
fn second_run_after_first_run_with_modifications() {
    // 1st run
    let (_addr, mut kv, mut storage) = setup(3);
    storage.write_page(PageIndex(0), &[11, 22, 33]).unwrap();
    storage.commit(&mut kv);
    let old_state = storage.get_state();

    // 2nd run
    let (addr, mut storage) = open(&kv, old_state, 3);
    storage.write_page(PageIndex(0), &[10, 20, 30]).unwrap();
    storage.write_page(PageIndex(1), &[40, 50, 60]).unwrap();
    storage.commit(&mut kv);

    // modifying pages `0` and `1`
    let ph0_old = compute_page_hash(addr, 0, &[11, 22, 33]);
    let ph0 = compute_page_hash(addr, 0, &[10, 20, 30]);
    let ph1 = compute_page_hash(addr, 1, &[40, 50, 60]);
    let ph2 = compute_page_hash(addr, 2, &[0; 32]);
    let jph = join_pages_hash(&[ph0, ph1, ph2]);
    let new_state = compute_state(&jph);

    assert_same_keys(&[old_state.0, new_state.0, ph0_old.0, ph0.0, ph1.0], &kv);

    assert_key_value(&kv, new_state.0, &jph);
    assert_key_value(&kv, ph0.0, &[10, 20, 30]);
    assert_key_value(&kv, ph1.0, &[40, 50, 60]);
    assert_no_key(&kv, ph2.0);
}

#[test]
fn third_run_rollbacks_to_after_first_run() {
    // 1st run
    let (_addr, mut kv, mut storage) = setup(3);
    storage.write_page(PageIndex(0), &[11, 22, 33]).unwrap();
    storage.commit(&mut kv);
    let state_1 = storage.get_state();

    // 2nd run
    let (_addr, mut storage) = open(&kv, state_1, 3);
    storage.write_page(PageIndex(0), &[10, 20, 30]).unwrap();
    storage.write_page(PageIndex(1), &[40, 50, 60]).unwrap();
    storage.commit(&mut kv);
    let state_2 = storage.get_state();

    // 3rd run (rollbacks to `state_1` initial state)
    let (addr, storage) = open(&kv, state_1, 3);

    let ph0_1 = compute_page_hash(addr, 0, &[11, 22, 33]);
    let ph1_1 = compute_page_hash(addr, 1, &[0; 32]);
    let ph2_1 = compute_page_hash(addr, 2, &[0; 32]);

    let ph0_2 = compute_page_hash(addr, 0, &[10, 20, 30]);
    let ph1_2 = compute_page_hash(addr, 1, &[40, 50, 60]);
    let ph2_2 = compute_page_hash(addr, 2, &[0; 32]);
    let jph = join_pages_hash(&[ph0_1, ph1_1, ph2_1]);

    assert_same_keys(&[state_1.0, state_2.0, ph0_1.0, ph0_2.0, ph1_2.0], &kv);

    assert_eq!(state_1, storage.get_state());
    assert_key_value(&kv, state_1.0, &jph);

    // 4th run (rollbacks to `state_2` initial state)
    let (_addr, storage) = open(&kv, state_2, 3);
    let jph = join_pages_hash(&[ph0_2, ph1_2, ph2_2]);

    assert_same_keys(&[state_1.0, state_2.0, ph0_1.0, ph0_2.0, ph1_2.0], &kv);

    assert_key_value(&kv, state_2.0, &jph);
    assert_eq!(state_2, storage.get_state());
}

#[test]
fn open_at_unknown_state_fails() {
    let addr = Address::from(0x11_22_33_44);
    let kv = MemKVStore::new();
    let state = State([7; 32]);
    assert!(matches!(
        MemMerklePages::new(addr, &kv, state, 3),
        Err(StorageError::StateNotFound)
    ));
}
