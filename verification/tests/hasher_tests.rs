use svm::common::{Address, State};
use svm::hasher::{DefaultKeyHasher, DefaultPageHasher, KeyHasher, PageHasher};
use svm::page::{PageHash, PageIndex};
use svm::kv::MemKVStore;
use svm::merkle_page_storage::MerklePageStorage;
use svm::testing::{
    compute_pages_state, concat_pages_hash, default_page_hash, fill_page, XorKeyHasher,
    XorPageHasher,
};

#[test]
fn default_key_hasher_is_keccak256() {
    // Keccak-256 of the empty input
    let expected: [u8; 32] = [
        0xc5, 0xd2, 0x46, 0x01, 0x86, 0xf7, 0x23, 0x3c, 0x92, 0x7e, 0x7d, 0xb2, 0xdc, 0xc7, 0x03,
        0xc0, 0xe5, 0x00, 0xb6, 0x53, 0xca, 0x82, 0x27, 0x3b, 0x7b, 0xfa, 0xd8, 0x04, 0x5d, 0x85,
        0xa4, 0x70,
    ];
    assert_eq!(expected, DefaultKeyHasher::hash(&[]));
    assert_ne!(expected, DefaultKeyHasher::hash(&[0]));
}

#[test]
fn address_from_u32_is_big_endian_then_zeros() {
    let addr = Address::from(0x11_22_33_44);
    let mut expected = [0u8; 20];
    expected[0] = 0x11;
    expected[1] = 0x22;
    expected[2] = 0x33;
    expected[3] = 0x44;
    assert_eq!(expected, addr.bytes());
    assert_eq!(&expected[..], addr.as_slice());
    assert_eq!(20, Address::len());
}

#[test]
fn page_hash_input_is_address_index_data() {
    let addr = Address::from(0x11_22_33_44);
    let data = [10u8, 20, 30];

    let mut input = Vec::new();
    input.extend_from_slice(addr.as_slice());
    input.extend_from_slice(&[0x01, 0x02]);
    input.extend_from_slice(&data);

    let expected = PageHash(DefaultKeyHasher::hash(&input));
    assert_eq!(expected, DefaultPageHasher::hash(addr, PageIndex(0x0102), &data));
    assert_eq!(expected, default_page_hash(&addr, 0x0102, &data));
}

#[test]
fn page_hash_separates_address_index_and_data() {
    let addr = Address::from(0x11_22_33_44);
    let other = Address::from(0x11_22_33_45);
    let h = default_page_hash(&addr, 0, &[1, 2, 3]);

    assert_ne!(h, default_page_hash(&other, 0, &[1, 2, 3]));
    assert_ne!(h, default_page_hash(&addr, 1, &[1, 2, 3]));
    assert_ne!(h, default_page_hash(&addr, 0, &[1, 2, 4]));
    assert_eq!(h, default_page_hash(&addr, 0, &[1, 2, 3]));
}

#[test]
fn concat_pages_hash_joins_in_order() {
    let a = PageHash([1; 32]);
    let b = PageHash([2; 32]);

    assert_eq!(Vec::<u8>::new(), concat_pages_hash(&[]));

    let joined = concat_pages_hash(&[a, b]);
    assert_eq!(64, joined.len());
    assert_eq!(&[1u8; 32][..], &joined[..32]);
    assert_eq!(&[2u8; 32][..], &joined[32..]);
}

#[test]
fn compute_pages_state_hashes_the_joined_digests() {
    let a = PageHash([1; 32]);
    let b = PageHash([2; 32]);

    let mut joined = vec![1u8; 32];
    joined.extend_from_slice(&[2u8; 32]);

    assert_eq!(State(DefaultKeyHasher::hash(&joined)), compute_pages_state(&[a, b]));
    assert_ne!(compute_pages_state(&[a, b]), compute_pages_state(&[b, a]));
}

#[test]
fn fill_page_puts_bytes_in_order() {
    let mut page = vec![0u8; 8];
    fill_page(&mut page, &[(1, 10), (3, 30), (1, 11)]);
    assert_eq!(vec![0, 11, 0, 30, 0, 0, 0, 0], page);
}

#[test]
fn state_empty_is_all_zeros() {
    assert_eq!(State([0; 32]), State::empty());
    assert!(State::empty().is_empty());
    assert!(!State([1; 32]).is_empty());
}

#[test]
fn xor_hasher_folds_into_thirty_two_bytes() {
    assert_eq!([0u8; 32], XorKeyHasher::hash(&[]));

    let mut expected = [0u8; 32];
    expected[0] = 1;
    expected[1] = 2;
    expected[2] = 3;
    assert_eq!(expected, XorKeyHasher::hash(&[1, 2, 3]));

    // the thirty-third byte falls on the first again
    let mut data = vec![0u8; 33];
    data[0] = 0b_0101;
    data[32] = 0b_0110;
    data[31] = 9;
    let mut expected = [0u8; 32];
    expected[0] = 0b_0011;
    expected[31] = 9;
    assert_eq!(expected, XorKeyHasher::hash(&data));
}

#[test]
fn colliding_hasher_gives_equal_states_for_different_pages() {
    // trailing zeros do not change a fold
    assert_eq!(XorKeyHasher::hash(&[7]), XorKeyHasher::hash(&[7, 0]));

    let addr = Address::from(0x11_22_33_44);
    let commit = |data: &[u8]| {
        let mut kv = MemKVStore::new();
        let mut storage =
            MerklePageStorage::<XorKeyHasher, XorPageHasher>::new(addr, &kv, State::empty(), 2)
                .unwrap();
        storage.write_page(PageIndex(0), data).unwrap();
        storage.commit(&mut kv)
    };

    assert_eq!(commit(&[7]), commit(&[7, 0]));
    assert_ne!(commit(&[7]), commit(&[8]));
}
