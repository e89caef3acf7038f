//! Public keys and the addresses derived from them.

use crate::address::Address;
use vstd::bytes::{spec_u128_from_le_bytes, u128_from_le_bytes};
use vstd::prelude::*;

verus! {

/// An uncompressed 65-byte public key.
#[derive(Clone, Copy, Debug)]
pub struct PublicKey(pub [u8; 65]);

impl PublicKey {
    /// The address in a space of `size` addresses that the key `k` maps to:
    /// its last 16 bytes, read little endian, divided by `u128::MAX / size`.
    pub open spec fn spec_address(k: Seq<u8>, size: u128) -> u128 {
        (spec_u128_from_le_bytes(k.subrange(49, 65)) / (u128::MAX / size) as u128) as u128
    }

    /// Wraps the 65 key bytes.
    pub fn new(k: [u8; 65]) -> (p: Self)
        ensures
            p.0 == k,
    {
        PublicKey(k)
    }

    /// The key bytes.
    pub fn as_bytes(&self) -> (b: &[u8; 65])
        ensures
            *b == self.0,
    {
        &self.0
    }

    /// Maps the key to one of `size` addresses (see `spec_address`).
    pub fn to_address(self, size: u128) -> (a: Address)
        requires
            size > 0,
        ensures
            a.0 == PublicKey::spec_address(self.0@, size),
    {
        let addr = u128_from_le_bytes(&self.0[49..65]);
        assert(u128::MAX / size >= 1) by (nonlinear_arith)
            requires
                0 < size <= u128::MAX,
        ;
        Address(addr / (u128::MAX / size))
    }
}

/// A larger key tail never maps to a smaller address; no key maps beyond
/// `u128::MAX / (u128::MAX / size)`, and so, where `size * size` fits in a
/// `u128`, none maps beyond `size`.
pub proof fn lemma_address_monotone(k1: Seq<u8>, k2: Seq<u8>, size: u128)
    requires
        0 < size,
        k1.len() == 65,
        k2.len() == 65,
        spec_u128_from_le_bytes(k1.subrange(49, 65)) <= spec_u128_from_le_bytes(k2.subrange(49, 65)),
    ensures
        PublicKey::spec_address(k1, size) <= PublicKey::spec_address(k2, size),
        PublicKey::spec_address(k2, size) <= u128::MAX / (u128::MAX / size) as u128,
        size * size <= u128::MAX ==> PublicKey::spec_address(k2, size) <= size,
{
    let a1 = spec_u128_from_le_bytes(k1.subrange(49, 65)) as int;
    let a2 = spec_u128_from_le_bytes(k2.subrange(49, 65)) as int;
    let q = (u128::MAX / size) as int;
    assert(q >= 1) by (nonlinear_arith)
        requires
            0 < size <= u128::MAX,
            q == u128::MAX / size,
    ;
    assert(a1 / q <= a2 / q) by (nonlinear_arith)
        requires
            a1 <= a2,
            q >= 1,
    ;
    assert(a2 / q <= (u128::MAX as int) / q) by (nonlinear_arith)
        requires
            a2 <= u128::MAX,
            q >= 1,
    ;
    if size * size <= u128::MAX {
        let max = u128::MAX as int;
        let s = size as int;
        assert(q * s <= max && max < q * s + s) by (nonlinear_arith)
            requires
                q == max / s,
                s > 0,
        ;
        assert(s <= q) by (nonlinear_arith)
            requires
                s * s <= max,
                q == max / s,
                s > 0,
        ;
        assert(a2 / q <= s) by (nonlinear_arith)
            requires
                a2 <= max,
                max < q * s + s,
                s <= q,
                q >= 1,
        ;
    }
}

} // verus!
