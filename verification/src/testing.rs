//! Helpers for tests of the storage: filling pages, joining page digests
//! and computing the digests of the default deployment.

use vstd::prelude::*;
use crate::common::{Address, State};
use crate::hasher::{DefaultKeyHasher, DefaultPageHasher, KeyHasher, PageHasher};
use crate::merkle_page_storage::{concat_hashes, MerklePageStorage};
use crate::page::{PageHash, PageIndex};

verus! {

/// The page storage with the hashers of the default deployment.
pub type MemMerklePages = MerklePageStorage<DefaultKeyHasher, DefaultPageHasher>;

/// The digest of the page `page_idx` of the contract at `addr` when it
/// holds `data`, by the page hasher of the default deployment.
pub fn default_page_hash(addr: &Address, page_idx: u16, data: &[u8]) -> (h: PageHash)
    ensures
        h == DefaultPageHasher::spec_hash(*addr, PageIndex(page_idx), data@),
{
    DefaultPageHasher::hash(*addr, PageIndex(page_idx), data)
}

/// The page `page` after the bytes of `items` were put at their offsets,
/// in order.
pub open spec fn filled(page: Seq<u8>, items: Seq<(usize, u8)>) -> Seq<u8>
    decreases items.len(),
{
    if items.len() == 0 {
        page
    } else {
        filled(page, items.drop_last()).update(items.last().0 as int, items.last().1)
    }
}

/// Puts every byte of `items` at its offset in `page`.
pub fn fill_page(page: &mut [u8], items: &[(usize, u8)])
    requires
        forall|i: int| 0 <= i < items@.len() ==> (#[trigger] items@[i]).0 < old(page)@.len(),
    ensures
        final(page)@ == filled(old(page)@, items@),
{
    let n: usize = items.len();
    let mut k: usize = 0;
    assert(items@.take(0) =~= Seq::empty());
    while k < n
        invariant
            k <= n,
            n == items@.len(),
            page@.len() == old(page)@.len(),
            forall|i: int| 0 <= i < items@.len() ==> (#[trigger] items@[i]).0 < page@.len(),
            page@ == filled(old(page)@, items@.take(k as int)),
        decreases n - k,
    {
        let (i, b) = items[k];
        proof {
            assert(items@.take(k + 1).drop_last() =~= items@.take(k as int));
            assert(items@.take(k + 1).last() == items@[k as int]);
        }
        page[i] = b;
        k += 1;
    }
    assert(items@.take(n as int) =~= items@);
}

/// The concatenation of the page digests `pages_hash`.
pub fn concat_pages_hash(pages_hash: &[PageHash]) -> (res: Vec<u8>)
    ensures
        res@ == concat_hashes(pages_hash@),
{
    let mut res: Vec<u8> = Vec::new();
    let n: usize = pages_hash.len();
    let mut i: usize = 0;
    assert(pages_hash@.take(0) =~= Seq::empty());
    while i < n
        invariant
            i <= n,
            n == pages_hash@.len(),
            res@ == concat_hashes(pages_hash@.take(i as int)),
        decreases n - i,
    {
        let ghost before = res@;
        res.extend_from_slice(pages_hash[i].as_ref());
        proof {
            assert(pages_hash@.take(i + 1).drop_last() =~= pages_hash@.take(i as int));
            assert(pages_hash@.take(i + 1).last() == pages_hash@[i as int]);
            assert(res@ =~= before + pages_hash@[i as int]@);
        }
        i += 1;
    }
    assert(pages_hash@.take(n as int) =~= pages_hash@);
    res
}

/// The state root of a contract whose pages have the digests `pages_hash`,
/// by the key hasher of the default deployment.
pub fn compute_pages_state(pages_hash: &[PageHash]) -> (state: State)
    ensures
        state == State(DefaultKeyHasher::spec_hash(concat_hashes(pages_hash@))),
{
    let concat_ph = concat_pages_hash(pages_hash);
    State(DefaultKeyHasher::hash(concat_ph.as_slice()))
}

/// Byte `lane` of the fold of `data`: the exclusive or of the bytes of
/// `data` whose place leaves the remainder `lane` when divided by 32.
pub open spec fn xor_lane(data: Seq<u8>, lane: int) -> u8
    decreases data.len(),
{
    if data.len() == 0 {
        0u8
    } else if (data.len() - 1) % 32 == lane {
        xor_lane(data.drop_last(), lane) ^ data.last()
    } else {
        xor_lane(data.drop_last(), lane)
    }
}

/// A hasher for tests whose digests can be told in advance: the fold of the
/// input by exclusive or into thirty-two bytes. Different inputs often have
/// the same digest, so it is of no use outside tests.
pub struct XorKeyHasher;

impl KeyHasher for XorKeyHasher {
    open spec fn spec_hash(data: Seq<u8>) -> [u8; 32] {
        [
            xor_lane(data, 0), xor_lane(data, 1), xor_lane(data, 2), xor_lane(data, 3),
            xor_lane(data, 4), xor_lane(data, 5), xor_lane(data, 6), xor_lane(data, 7),
            xor_lane(data, 8), xor_lane(data, 9), xor_lane(data, 10), xor_lane(data, 11),
            xor_lane(data, 12), xor_lane(data, 13), xor_lane(data, 14), xor_lane(data, 15),
            xor_lane(data, 16), xor_lane(data, 17), xor_lane(data, 18), xor_lane(data, 19),
            xor_lane(data, 20), xor_lane(data, 21), xor_lane(data, 22), xor_lane(data, 23),
            xor_lane(data, 24), xor_lane(data, 25), xor_lane(data, 26), xor_lane(data, 27),
            xor_lane(data, 28), xor_lane(data, 29), xor_lane(data, 30), xor_lane(data, 31),
        ]
    }

    fn hash(data: &[u8]) -> (h: [u8; 32]) {
        let mut out: [u8; 32] = [0u8; 32];
        let n: usize = data.len();
        let mut k: usize = 0;
        assert(data@.take(0) =~= Seq::empty());
        while k < n
            invariant
                k <= n,
                n == data@.len(),
                forall|i: int| 0 <= i < 32 ==> out@[i] == xor_lane(data@.take(k as int), i),
            decreases n - k,
        {
            proof {
                assert(data@.take(k + 1).drop_last() =~= data@.take(k as int));
                assert(data@.take(k + 1).last() == data@[k as int]);
            }
            let lane: usize = k % 32;
            out[lane] = out[lane] ^ data[k];
            k += 1;
        }
        assert(data@.take(n as int) =~= data@);
        assert(out =~= Self::spec_hash(data@));
        out
    }
}

/// The page hasher for tests: the fold of the page hash input.
pub type XorPageHasher = crate::hasher::PageHasherImpl<XorKeyHasher>;

} // verus!
