use svm::app_storage::{AppSettings, AppStorage, DefaultAppStorage, StorageBuilder};
use svm::common::{Address, State};
use svm::error::StorageError;
use svm::helpers::{page_slice_layout, storage_read_page_slice, storage_write_page_slice};
use svm::kv::{KVStore, MemKVStore};
use svm::page::{PageIndex, PageOffset, PageSliceLayout, PAGE_SIZE};
use svm::page_slice_cache::{make_page_image, PageSliceCache};
use svm::testing::{default_page_hash, MemMerklePages};

fn addr() -> Address {
    Address::from(0x11_22_33_44)
}

fn open(kv: &MemKVStore, state: &State, page_count: u16) -> DefaultAppStorage {
    StorageBuilder::new(kv).build(&addr(), state, &AppSettings { page_count }).unwrap()
}

fn layout(page: u16, offset: u32, len: u32) -> PageSliceLayout {
    PageSliceLayout::new(PageIndex(page), PageOffset(offset), len)
}

#[test]
fn layout_keeps_its_parts() {
    let l = layout(7, 100, 20);
    assert_eq!(PageIndex(7), l.page_index());
    assert_eq!(PageOffset(100), l.page_offset());
    assert_eq!(20, l.len());
    assert_eq!(l, page_slice_layout(7, 100, 20));

    assert!(l.check(8));
    assert!(!l.check(7));
    assert!(layout(0, 4095, 1).check(1));
    assert!(!layout(0, 4095, 2).check(1));
    assert!(!layout(0, 0, 0).check(1));
    assert!(layout(0, 0, 4096).check(1));
    assert!(!layout(0, u32::MAX, u32::MAX).check(1));
}

#[test]
fn never_written_page_reads_as_zeros() {
    let kv = MemKVStore::new();
    let mut storage = open(&kv, &State::empty(), 2);

    assert_eq!(Ok(vec![0; 10]), storage.read_page_slice(&kv, &layout(1, 100, 10)));
    assert_eq!(Ok(vec![0; PAGE_SIZE]), storage.read_page_slice(&kv, &layout(0, 0, 4096)));
}

#[test]
fn written_slice_is_read_before_commit() {
    let kv = MemKVStore::new();
    let mut storage = open(&kv, &State::empty(), 2);

    storage.write_page_slice(&kv, &layout(1, 10, 4), &[1, 2, 3, 4]).unwrap();
    storage.write_page_slice(&kv, &layout(1, 12, 3), &[7, 8, 9]).unwrap();

    assert_eq!(Ok(vec![0, 1, 2, 7, 8, 9, 0]), storage.read_page_slice(&kv, &layout(1, 9, 7)));
    assert_eq!(Ok(vec![0, 0]), storage.read_page_slice(&kv, &layout(0, 10, 2)));
}

#[test]
fn slices_of_one_page_are_committed_as_one_page() {
    let mut kv = MemKVStore::new();
    let mut storage = open(&kv, &State::empty(), 2);
    let zero_hash = default_page_hash(&addr(), 1, &[0; 32]);

    storage.write_page_slice(&kv, &layout(1, 0, 2), &[1, 2]).unwrap();
    storage.write_page_slice(&kv, &layout(1, 4094, 2), &[3, 4]).unwrap();

    // the page storage learns of the slices at the commit
    assert_eq!(Ok(zero_hash), storage.get_page_hash(PageIndex(1)));
    assert_eq!(State::empty(), storage.get_state());

    let state = storage.commit(&mut kv);

    let mut page = vec![0u8; PAGE_SIZE];
    page[0] = 1;
    page[1] = 2;
    page[4094] = 3;
    page[4095] = 4;
    let ph1 = default_page_hash(&addr(), 1, &page);

    assert_eq!(Ok(ph1), storage.get_page_hash(PageIndex(1)));
    assert_eq!(state, storage.get_state());
    assert_eq!(2, kv.keys().len());
    assert_eq!(Some(page), kv.get(&ph1.0));

    // reads go on after the commit, and a further commit changes nothing
    assert_eq!(Ok(vec![3, 4]), storage.read_page_slice(&kv, &layout(1, 4094, 2)));
    assert_eq!(state, storage.commit(&mut kv));
    assert_eq!(2, kv.keys().len());
}

#[test]
fn reads_do_not_make_a_page_dirty() {
    let mut kv = MemKVStore::new();
    let mut storage = open(&kv, &State::empty(), 2);

    storage.read_page_slice(&kv, &layout(0, 0, 16)).unwrap();
    let state = storage.commit(&mut kv);

    let mut plain = MemMerklePages::new(addr(), &MemKVStore::new(), State::empty(), 2).unwrap();
    let mut other = MemKVStore::new();
    assert_eq!(plain.commit(&mut other), state);
    assert_eq!(1, kv.keys().len());
}

#[test]
fn slices_beyond_the_page_are_out_of_range() {
    let kv = MemKVStore::new();
    let mut storage = open(&kv, &State::empty(), 2);

    assert_eq!(Err(StorageError::OutOfRange), storage.read_page_slice(&kv, &layout(0, 4090, 7)));
    assert_eq!(Err(StorageError::OutOfRange), storage.read_page_slice(&kv, &layout(0, 0, 0)));
    assert_eq!(Err(StorageError::OutOfRange), storage.read_page_slice(&kv, &layout(2, 0, 1)));
    assert_eq!(
        Err(StorageError::OutOfRange),
        storage.write_page_slice(&kv, &layout(0, 4095, 2), &[1, 2])
    );
    assert_eq!(
        Err(StorageError::OutOfRange),
        storage.write_page_slice(&kv, &layout(0, 0, 3), &[1, 2])
    );
    assert_eq!(Err(StorageError::OutOfRange), storage.write_page_slice(&kv, &layout(0, 0, 0), &[]));
    assert!(storage.write_page_slice(&kv, &layout(1, 4095, 1), &[9]).is_ok());
    assert_eq!(Ok(vec![9]), storage.read_page_slice(&kv, &layout(1, 4095, 1)));
}

#[test]
fn short_stored_page_is_filled_with_zeros() {
    let mut kv = MemKVStore::new();
    let mut pages = MemMerklePages::new(addr(), &kv, State::empty(), 2).unwrap();
    pages.write_page(PageIndex(0), &[10, 20, 30]).unwrap();
    let state = pages.commit(&mut kv);

    let mut storage = open(&kv, &state, 2);
    assert_eq!(Ok(vec![10, 20, 30, 0, 0]), storage.read_page_slice(&kv, &layout(0, 0, 5)));

    assert_eq!(vec![0u8; PAGE_SIZE], make_page_image(None));
    let mut long = vec![7u8; PAGE_SIZE + 5];
    long[0] = 1;
    let image = make_page_image(Some(long));
    assert_eq!(PAGE_SIZE, image.len());
    assert_eq!(1, image[0]);
    assert_eq!(7, image[PAGE_SIZE - 1]);
}

#[test]
fn cache_reads_what_the_page_storage_was_given() {
    let mut kv = MemKVStore::new();
    let mut pages = MemMerklePages::new(addr(), &kv, State::empty(), 2).unwrap();
    pages.write_page(PageIndex(0), &[10, 20, 30]).unwrap();
    assert_eq!(Some(vec![10, 20, 30]), pages.written_page(PageIndex(0)));
    assert_eq!(None, pages.written_page(PageIndex(1)));
    assert_eq!(None, pages.written_page(PageIndex(2)));

    let mut storage = AppStorage::new(PageSliceCache::new(pages));
    assert_eq!(Ok(vec![10, 20, 30, 0]), storage.read_page_slice(&kv, &layout(0, 0, 4)));
    storage.write_page_slice(&kv, &layout(0, 1, 1), &[21]).unwrap();
    assert_eq!(Ok(vec![0]), storage.read_page_slice(&kv, &layout(1, 0, 1)));

    let state = storage.commit(&mut kv);
    let mut reopened = open(&kv, &state, 2);
    assert_eq!(Ok(vec![10, 21, 30, 0]), reopened.read_page_slice(&kv, &layout(0, 0, 4)));
}

#[test]
fn least_recently_used_page_makes_room() {
    let mut kv = MemKVStore::new();
    let pages = MemMerklePages::new(addr(), &kv, State::empty(), 3).unwrap();
    let mut cache = PageSliceCache::with_max_resident(pages, 2);
    let zero_hash_0 = default_page_hash(&addr(), 0, &[0; 32]);
    let zero_hash_1 = default_page_hash(&addr(), 1, &[0; 32]);

    cache.write_page_slice(&kv, &layout(0, 0, 2), &[1, 2]).unwrap();
    cache.write_page_slice(&kv, &layout(1, 0, 2), &[3, 4]).unwrap();
    // page 0 is used again, so page 1 is the least recently used
    assert_eq!(Ok(vec![1, 2]), cache.read_page_slice(&kv, &layout(0, 0, 2)));
    assert_eq!(Ok(zero_hash_0), cache.get_page_hash(PageIndex(0)));
    assert_eq!(Ok(zero_hash_1), cache.get_page_hash(PageIndex(1)));

    // page 2 needs room: page 1 is written to the page storage
    assert_eq!(Ok(vec![0, 0]), cache.read_page_slice(&kv, &layout(2, 0, 2)));
    let mut page_1 = vec![0u8; PAGE_SIZE];
    page_1[0] = 3;
    page_1[1] = 4;
    assert_eq!(Ok(zero_hash_0), cache.get_page_hash(PageIndex(0)));
    assert_eq!(Ok(default_page_hash(&addr(), 1, &page_1)), cache.get_page_hash(PageIndex(1)));
    // nothing is committed yet
    assert!(kv.keys().is_empty());

    // page 1 comes back with what was written to it; page 0 makes room
    assert_eq!(Ok(vec![3, 4, 0]), cache.read_page_slice(&kv, &layout(1, 0, 3)));
    let mut page_0 = vec![0u8; PAGE_SIZE];
    page_0[0] = 1;
    page_0[1] = 2;
    assert_eq!(Ok(default_page_hash(&addr(), 0, &page_0)), cache.get_page_hash(PageIndex(0)));
    cache.write_page_slice(&kv, &layout(1, 2, 1), &[5]).unwrap();
    page_1[2] = 5;

    let state = cache.commit(&mut kv);
    assert_eq!(3, kv.keys().len());
    assert_eq!(Some(page_0.clone()), kv.get(&default_page_hash(&addr(), 0, &page_0).0));
    assert_eq!(Some(page_1.clone()), kv.get(&default_page_hash(&addr(), 1, &page_1).0));

    let mut reopened = open(&kv, &state, 3);
    assert_eq!(Ok(vec![1, 2]), reopened.read_page_slice(&kv, &layout(0, 0, 2)));
    assert_eq!(Ok(vec![3, 4, 5]), reopened.read_page_slice(&kv, &layout(1, 0, 3)));
    assert_eq!(Ok(vec![0, 0]), reopened.read_page_slice(&kv, &layout(2, 0, 2)));
}

#[test]
fn bounded_and_unbounded_caches_commit_the_same() {
    let run = |max_resident: Option<usize>| {
        let mut kv = MemKVStore::new();
        let pages = MemMerklePages::new(addr(), &kv, State::empty(), 4).unwrap();
        let mut cache = match max_resident {
            Some(max) => PageSliceCache::with_max_resident(pages, max),
            None => PageSliceCache::new(pages),
        };
        for round in 0..3u8 {
            for page in 0..4u16 {
                let at = layout(page, 10 * round as u32, 2);
                cache.write_page_slice(&kv, &at, &[round + 1, page as u8]).unwrap();
                assert_eq!(Ok(vec![round + 1, page as u8]), cache.read_page_slice(&kv, &at));
            }
        }
        let state = cache.commit(&mut kv);
        let mut items = kv.iter();
        items.sort();
        (state, items)
    };

    let unbounded = run(None);
    assert_eq!(unbounded, run(Some(1)));
    assert_eq!(unbounded, run(Some(0)));
    assert_eq!(unbounded, run(Some(2)));
    assert_eq!(unbounded, run(Some(100)));
}

#[test]
fn clean_page_that_made_room_is_read_again() {
    let mut kv = MemKVStore::new();
    let mut storage = open(&kv, &State::empty(), 2);
    storage.write_page_slice(&kv, &layout(0, 0, 1), &[7]).unwrap();
    storage.write_page_slice(&kv, &layout(1, 0, 1), &[8]).unwrap();
    let state = storage.commit(&mut kv);

    let mut bounded: DefaultAppStorage = StorageBuilder::new(&kv)
        .with_max_resident(1)
        .build(&addr(), &state, &AppSettings { page_count: 2 })
        .unwrap();
    for _ in 0..3 {
        assert_eq!(Ok(vec![7]), bounded.read_page_slice(&kv, &layout(0, 0, 1)));
        assert_eq!(Ok(vec![8]), bounded.read_page_slice(&kv, &layout(1, 0, 1)));
    }
    assert_eq!(state, bounded.commit(&mut kv));
}

#[test]
fn sandbox_calls_take_plain_integers() {
    let mut kv = MemKVStore::new();
    let mut storage = open(&kv, &State::empty(), 2);

    storage_write_page_slice(&mut storage, &kv, 1, 8, 2, &[5, 6]).unwrap();
    assert_eq!(Ok(vec![0, 5, 6, 0]), storage_read_page_slice(&mut storage, &kv, 1, 7, 4));

    assert_eq!(
        Err(StorageError::OutOfRange),
        storage_read_page_slice(&mut storage, &kv, 0x1_0000, 0, 1)
    );
    assert_eq!(Err(StorageError::OutOfRange), storage_read_page_slice(&mut storage, &kv, 0, 0, 0));
    assert_eq!(
        Err(StorageError::OutOfRange),
        storage_write_page_slice(&mut storage, &kv, 0x1_0001, 0, 1, &[1])
    );
    assert_eq!(Err(StorageError::OutOfRange), storage_read_page_slice(&mut storage, &kv, 2, 0, 1));

    let state = storage.commit(&mut kv);
    let mut reopened = open(&kv, &state, 2);
    assert_eq!(Ok(vec![5, 6]), storage_read_page_slice(&mut reopened, &kv, 1, 8, 2));
}

#[test]
fn builder_refuses_an_unknown_state() {
    let kv = MemKVStore::new();
    let r: Result<DefaultAppStorage, StorageError> =
        StorageBuilder::new(&kv).build(&addr(), &State([3; 32]), &AppSettings { page_count: 2 });
    assert!(matches!(r, Err(StorageError::StateNotFound)));
}
