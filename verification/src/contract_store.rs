//! The store of the code of contracts over a key-value store: the digest of
//! the code under the address of the contract, and the serialised contract
//! under the digest of its code.

use vstd::prelude::*;
use crate::common::Address;
use crate::kv::{apply_changes, changes_view, KVStore};

verus! {

/// The digest of the code of a contract.
#[derive(Debug, Copy, Clone, Hash)]
pub struct CodeHash(pub [u8; 32]);

impl View for CodeHash {
    type V = Seq<u8>;

    open spec fn view(&self) -> Seq<u8> {
        self.0@
    }
}

/// Why a contract could not be loaded.
#[derive(Debug, Copy, Clone, PartialEq, Eq, Structural)]
pub enum ContractStoreError {
    /// The store holds a code digest under the address, but no contract
    /// under that digest.
    CodeNotFound,
}

/// What loading the contract at `addr` from `kv` gives: nothing where `kv`
/// holds no code digest under the address, else the serialised contract
/// that `kv` holds under that digest.
pub open spec fn loaded_contract(kv: Map<Seq<u8>, Seq<u8>>, addr: Address) -> Result<
    Option<Seq<u8>>,
    ContractStoreError,
> {
    if !kv.contains_key(addr@) {
        Ok(None)
    } else if kv.contains_key(kv[addr@]) {
        Ok(Some(kv[kv[addr@]]))
    } else {
        Err(ContractStoreError::CodeNotFound)
    }
}

/// A store of serialised contracts over the key-value store `KV`.
pub struct KvContractStore<KV> {
    db: KV,
}

impl<KV: KVStore> KvContractStore<KV> {
    /// The key-value store under the contract store.
    pub closed spec fn db(&self) -> KV {
        self.db
    }

    /// A contract store over the key-value store `db`.
    pub fn new(db: KV) -> (store: Self)
        ensures
            store.db() == db,
    {
        KvContractStore { db }
    }

    /// Stores the serialised contract `serialized` of the contract at
    /// `addr`, whose code has the digest `hash`: in one batch, the digest
    /// under the address and then the serialised contract under the digest.
    pub fn store(&mut self, serialized: &[u8], addr: &Address, hash: CodeHash)
        ensures
            final(self).db()@ == old(self).db()@.insert(addr@, hash@).insert(hash@, serialized@),
    {
        let addr_hash: (&[u8], &[u8]) = (addr.as_slice(), hash.0.as_slice());
        let hash_wasm: (&[u8], &[u8]) = (hash.0.as_slice(), serialized);
        let changes: [(&[u8], &[u8]); 2] = [addr_hash, hash_wasm];
        proof {
            let batch = changes_view(changes@);
            let first = batch.drop_last();
            assert(first.len() == 1);
            assert(first.drop_last().len() == 0);
            assert(first.last() == (addr@, hash@));
            assert(batch.last() == (hash@, serialized@));
            assert(apply_changes(self.db()@, first.drop_last()) == self.db()@);
            assert(apply_changes(self.db()@, first) == self.db()@.insert(addr@, hash@));
        }
        self.db.store(changes.as_slice());
    }

    /// Loads the serialised contract of the contract at `addr`.
    pub fn load(&self, addr: &Address) -> (r: Result<Option<Vec<u8>>, ContractStoreError>)
        ensures
            match r {
                Ok(Some(bytes)) => loaded_contract(self.db()@, *addr) == Ok::<
                    Option<Seq<u8>>,
                    ContractStoreError,
                >(Some(bytes@)),
                Ok(None) => loaded_contract(self.db()@, *addr) == Ok::<
                    Option<Seq<u8>>,
                    ContractStoreError,
                >(None),
                Err(e) => loaded_contract(self.db()@, *addr) == Err::<
                    Option<Seq<u8>>,
                    ContractStoreError,
                >(e),
            },
    {
        match self.db.get(addr.as_slice()) {
            None => Ok(None),
            Some(hash) => match self.db.get(hash.as_slice()) {
                None => Err(ContractStoreError::CodeNotFound),
                Some(bytes) => Ok(Some(bytes)),
            },
        }
    }

    /// Gives back the key-value store under the contract store.
    pub fn into_db(self) -> (db: KV)
        ensures
            db == self.db(),
    {
        self.db
    }
}

} // verus!
