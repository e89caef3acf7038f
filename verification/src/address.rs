//! Account addresses: 128-bit indices into the account tree.

use crate::codec::copy_into;
use vstd::bytes::{spec_u128_from_le_bytes, spec_u128_to_le_bytes, u128_from_le_bytes, u128_to_le_bytes};
use vstd::prelude::*;
use vstd::std_specs::ops::AddSpecImpl;

verus! {

/// The number of bytes in an encoded address.
pub const LEN: usize = 16;

/// An account address.
#[derive(Clone, Copy, Debug, PartialEq, Eq, Structural)]
pub struct Address(pub u128);

impl Address {
    /// The address that `bytes` encodes (little endian).
    pub open spec fn spec_from_bytes(bytes: Seq<u8>) -> Address {
        Address(spec_u128_from_le_bytes(bytes))
    }

    /// The little-endian encoding of this address.
    pub open spec fn spec_to_bytes(self) -> Seq<u8> {
        spec_u128_to_le_bytes(self.0)
    }

    /// Decodes an address from its 16 little-endian bytes: the value of the
    /// bytes themselves, whatever the slice's place in memory.
    pub fn from_bytes(bytes: &[u8]) -> (a: Self)
        requires
            bytes@.len() == LEN,
        ensures
            a == Address::spec_from_bytes(bytes@),
    {
        Address(u128_from_le_bytes(bytes))
    }

    /// Encodes the address as 16 little-endian bytes.
    pub fn to_bytes(self) -> (b: [u8; LEN])
        ensures
            b@ == self.spec_to_bytes(),
    {
        let v = u128_to_le_bytes(self.0);
        let mut b = [0u8; LEN];
        copy_into(&mut b, 0, v.as_slice());
        assert(b@ =~= v@);
        b
    }

    /// The address 0.
    pub fn zero() -> (a: Self)
        ensures
            a.0 == 0,
    {
        Address(0)
    }

    /// The address 1.
    pub fn one() -> (a: Self)
        ensures
            a.0 == 1,
    {
        Address(1)
    }
}

/// Decoding an encoded address gives the address back.
pub proof fn lemma_address_decode_encode(a: Address)
    ensures
        a.spec_to_bytes().len() == LEN,
        Address::spec_from_bytes(a.spec_to_bytes()) == a,
{
    vstd::bytes::lemma_auto_spec_u128_to_from_le_bytes();
    assert(spec_u128_to_le_bytes(a.0).len() == 16);
}

/// Encoding a decoded address gives the 16 bytes back.
pub proof fn lemma_address_encode_decode(bytes: Seq<u8>)
    requires
        bytes.len() == LEN,
    ensures
        Address::spec_from_bytes(bytes).spec_to_bytes() == bytes,
{
    vstd::bytes::lemma_auto_spec_u128_to_from_le_bytes();
}

impl core::ops::Add for Address {
    type Output = Self;

    fn add(self, other: Self) -> (r: Self) {
        Address(self.0 + other.0)
    }
}

impl AddSpecImpl for Address {
    open spec fn obeys_add_spec() -> bool {
        true
    }

    open spec fn add_req(self, rhs: Address) -> bool {
        self.0 + rhs.0 <= u128::MAX
    }

    open spec fn add_spec(self, rhs: Address) -> Address {
        Address((self.0 + rhs.0) as u128)
    }
}

impl core::ops::Add<u128> for Address {
    type Output = Self;

    fn add(self, other: u128) -> (r: Self) {
        Address(self.0 + other)
    }
}

impl AddSpecImpl<u128> for Address {
    open spec fn obeys_add_spec() -> bool {
        true
    }

    open spec fn add_req(self, rhs: u128) -> bool {
        self.0 + rhs <= u128::MAX
    }

    open spec fn add_spec(self, rhs: u128) -> Address {
        Address((self.0 + rhs) as u128)
    }
}

impl core::ops::Add<Address> for u128 {
    type Output = Self;

    fn add(self, other: Address) -> (r: u128) {
        self + other.0
    }
}

impl AddSpecImpl<Address> for u128 {
    open spec fn obeys_add_spec() -> bool {
        true
    }

    open spec fn add_req(self, rhs: Address) -> bool {
        self + rhs.0 <= u128::MAX
    }

    open spec fn add_spec(self, rhs: Address) -> u128 {
        (self + rhs.0) as u128
    }
}

} // verus!
