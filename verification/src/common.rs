//! The identifiers shared by all layers: contract addresses and state roots.

use vstd::prelude::*;
use vstd::std_specs::cmp::PartialEqSpecImpl;
use vstd::std_specs::convert::FromSpecImpl;
use crate::bytes::slices_equal;

verus! {

/// The number of bytes of a contract address.
pub const ADDRESS_LEN: usize = 20;

/// The identifier of a contract: twenty opaque bytes.
#[derive(Debug, Copy, Clone, Hash)]
pub struct Address(pub [u8; 20]);

impl View for Address {
    type V = Seq<u8>;

    open spec fn view(&self) -> Seq<u8> {
        self.0@
    }
}

impl Address {
    /// The address that starts with the big-endian bytes of `n` and is zero
    /// after them.
    pub open spec fn spec_from_u32(n: u32) -> Address {
        Address(
            [
                (n / 0x100_0000) as u8,
                ((n / 0x1_0000) % 0x100) as u8,
                ((n / 0x100) % 0x100) as u8,
                (n % 0x100) as u8,
                0, 0, 0, 0, 0, 0, 0, 0, 0, 0, 0, 0, 0, 0, 0, 0,
            ],
        )
    }

    /// The number of bytes of an address.
    pub fn len() -> (n: usize)
        ensures
            n == ADDRESS_LEN,
    {
        ADDRESS_LEN
    }

    /// The bytes of the address.
    pub fn as_slice(&self) -> (s: &[u8])
        ensures
            s@ == self@,
    {
        self.0.as_slice()
    }

    /// The bytes of the address, as an array.
    pub fn bytes(&self) -> (b: [u8; 20])
        ensures
            b == self.0,
    {
        self.0
    }
}

impl PartialEq for Address {
    fn eq(&self, other: &Address) -> (r: bool) {
        slices_equal(self.0.as_slice(), other.0.as_slice())
    }
}

impl Eq for Address {}

impl PartialEqSpecImpl for Address {
    open spec fn obeys_eq_spec() -> bool {
        true
    }

    open spec fn eq_spec(&self, other: &Address) -> bool {
        self@ == other@
    }
}

impl From<u32> for Address {
    /// The address whose first four bytes are `n` in big-endian order and
    /// whose other bytes are zero.
    fn from(n: u32) -> (a: Address) {
        let a = Address(
            [
                (n / 0x100_0000) as u8,
                ((n / 0x1_0000) % 0x100) as u8,
                ((n / 0x100) % 0x100) as u8,
                (n % 0x100) as u8,
                0, 0, 0, 0, 0, 0, 0, 0, 0, 0, 0, 0, 0, 0, 0, 0,
            ],
        );
        a
    }
}

impl FromSpecImpl<u32> for Address {
    open spec fn obeys_from_spec() -> bool {
        true
    }

    open spec fn from_spec(n: u32) -> Address {
        Address::spec_from_u32(n)
    }
}

/// The bytes of `Address::from(n)` are the big-endian bytes of `n` followed
/// by sixteen zero bytes.
pub proof fn lemma_address_from_u32(n: u32)
    ensures
        Address::spec_from_u32(n)@ == crate::bytes::be_bytes_u32(n) + crate::bytes::zeros(16),
{
    assert(Address::spec_from_u32(n)@ =~= crate::bytes::be_bytes_u32(n) + crate::bytes::zeros(16));
}

/// A state root: the digest that commits to all pages of a contract. The
/// all-zero state stands for a contract that has never been committed.
#[derive(Debug, Copy, Clone, Hash)]
pub struct State(pub [u8; 32]);

impl View for State {
    type V = Seq<u8>;

    open spec fn view(&self) -> Seq<u8> {
        self.0@
    }
}

impl State {
    /// The state of a contract that has never been committed: all zeros.
    pub fn empty() -> (s: State)
        ensures
            s@ == crate::bytes::zeros(32),
    {
        let s = State([0u8; 32]);
        assert(s@ =~= crate::bytes::zeros(32));
        s
    }

    /// Tells whether this is the all-zero state.
    pub fn is_empty(&self) -> (r: bool)
        ensures
            r == (self@ == crate::bytes::zeros(32)),
    {
        let z = State::empty();
        slices_equal(self.0.as_slice(), z.0.as_slice())
    }

    /// The bytes of the state root.
    pub fn as_slice(&self) -> (s: &[u8])
        ensures
            s@ == self@,
    {
        self.0.as_slice()
    }

    /// The bytes of the state root, as an array.
    pub fn bytes(&self) -> (b: [u8; 32])
        ensures
            b == self.0,
    {
        self.0
    }
}

impl PartialEq for State {
    fn eq(&self, other: &State) -> (r: bool) {
        slices_equal(self.0.as_slice(), other.0.as_slice())
    }
}

impl Eq for State {}

impl PartialEqSpecImpl for State {
    open spec fn obeys_eq_spec() -> bool {
        true
    }

    open spec fn eq_spec(&self, other: &State) -> bool {
        self@ == other@
    }
}

} // verus!
