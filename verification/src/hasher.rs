//! The two digests of the storage: the digest of a page and the digest of a
//! state. Both are capabilities that a deployment chooses; the storage is
//! generic over them.

use std::marker::PhantomData;
use vstd::prelude::*;
use crate::bytes::{be_bytes_u16, write_u16_be};
use crate::common::Address;
use crate::page::{PageHash, PageIndex};

verus! {

/// A digest of thirty-two bytes over arbitrary bytes. The state root is the
/// digest, by such a hasher, of the concatenated page digests.
pub trait KeyHasher {
    /// The digest of `data`. An implementation that gives none leaves it
    /// unknown.
    open spec fn spec_hash(data: Seq<u8>) -> [u8; 32] {
        arbitrary()
    }

    /// Computes the digest of `data`.
    fn hash(data: &[u8]) -> (h: [u8; 32])
        ensures
            h == Self::spec_hash(data@),
    ;
}

/// A digest of one page, separated by the contract's address and the page's
/// index.
pub trait PageHasher {
    /// The digest of the page `page_idx` of the contract at `addr` when it
    /// holds `data`. An implementation that gives none leaves it unknown.
    open spec fn spec_hash(addr: Address, page_idx: PageIndex, data: Seq<u8>) -> PageHash {
        arbitrary()
    }

    /// Computes the digest of the page `page_idx` of the contract at `addr`
    /// when it holds `page_data`.
    fn hash(addr: Address, page_idx: PageIndex, page_data: &[u8]) -> (h: PageHash)
        ensures
            h == Self::spec_hash(addr, page_idx, page_data@),
    ;
}

/// The Keccak-256 digest of `data`.
pub uninterp spec fn keccak256_digest(data: Seq<u8>) -> [u8; 32];

/// Computes the Keccak-256 digest of `data`.
///
/// Calls `tiny_keccak::keccak256`, which absorbs `data` into a fresh
/// Keccak sponge and squeezes thirty-two bytes out of it. The result depends
/// on `data` alone; the contract gives it its name and claims nothing else.
#[verifier::external_body]
fn keccak256(data: &[u8]) -> (out: [u8; 32])
    ensures
        out == keccak256_digest(data@),
{
    tiny_keccak::keccak256(data)
}

/// The hasher of the default deployment: Keccak-256.
pub struct DefaultKeyHasher;

impl KeyHasher for DefaultKeyHasher {
    open spec fn spec_hash(data: Seq<u8>) -> [u8; 32] {
        keccak256_digest(data)
    }

    fn hash(data: &[u8]) -> (h: [u8; 32]) {
        keccak256(data)
    }
}

/// The bytes that a page digest is computed over: the address, the page
/// index as two big-endian bytes, and the bytes of the page.
pub open spec fn page_hash_input(addr: Address, page_idx: PageIndex, data: Seq<u8>) -> Seq<u8> {
    addr@ + be_bytes_u16(page_idx.0) + data
}

/// The page hasher that digests the page hash input with the key hasher
/// `KH`.
pub struct PageHasherImpl<KH> {
    marker: PhantomData<KH>,
}

impl<KH: KeyHasher> PageHasher for PageHasherImpl<KH> {
    open spec fn spec_hash(addr: Address, page_idx: PageIndex, data: Seq<u8>) -> PageHash {
        PageHash(KH::spec_hash(page_hash_input(addr, page_idx, data)))
    }

    fn hash(addr: Address, page_idx: PageIndex, page_data: &[u8]) -> (h: PageHash) {
        let mut input: Vec<u8> = Vec::new();
        input.extend_from_slice(addr.as_slice());
        write_u16_be(&mut input, page_idx.0);
        input.extend_from_slice(page_data);
        assert(input@ =~= page_hash_input(addr, page_idx, page_data@));
        PageHash(KH::hash(input.as_slice()))
    }
}

/// The page hasher of the default deployment.
pub type DefaultPageHasher = PageHasherImpl<DefaultKeyHasher>;

} // verus!
