//! Balance-transfer transactions and their fixed-size wire format.

use crate::address::Address;
use crate::codec::copy_into;
use crate::error::{Error, OK};
use vstd::bytes::{
    spec_u128_from_le_bytes, spec_u128_to_le_bytes, spec_u64_from_le_bytes, spec_u64_to_le_bytes,
    u128_from_le_bytes, u128_to_le_bytes, u64_from_le_bytes, u64_to_le_bytes,
};
use vstd::prelude::*;

verus! {

/// The number of bytes of an encoded transaction.
pub const TX_LEN: usize = 144;

/// The number of bytes of a transaction's signature.
pub const SIGNATURE_LEN: usize = 96;

/// A transfer of `amount` from `from` to `to`.
///
/// Its wire format is the fields in declaration order, integers little
/// endian: `to` (16 bytes), `from` (16), `nonce` (8), `amount` (8) and
/// `signature` (96).
#[derive(Clone, Copy, Debug)]
pub struct Transaction {
    pub to: Address,
    pub from: Address,
    pub nonce: u64,
    pub amount: u64,
    pub signature: [u8; SIGNATURE_LEN],
}

/// The wire format of `tx`.
pub open spec fn spec_tx_bytes(tx: Transaction) -> Seq<u8> {
    spec_u128_to_le_bytes(tx.to.0) + spec_u128_to_le_bytes(tx.from.0) + spec_u64_to_le_bytes(
        tx.nonce,
    ) + spec_u64_to_le_bytes(tx.amount) + tx.signature@
}

/// `tx` is the transaction that the 144 bytes `b` encode.
pub open spec fn spec_tx_decodes(tx: Transaction, b: Seq<u8>) -> bool {
    &&& tx.to.0 == spec_u128_from_le_bytes(b.subrange(0, 16))
    &&& tx.from.0 == spec_u128_from_le_bytes(b.subrange(16, 32))
    &&& tx.nonce == spec_u64_from_le_bytes(b.subrange(32, 40))
    &&& tx.amount == spec_u64_from_le_bytes(b.subrange(40, 48))
    &&& tx.signature@ == b.subrange(48, 144)
}

impl Transaction {
    /// Decodes a transaction from its 144-byte wire format.
    pub fn from_bytes(bytes: &[u8]) -> (tx: Self)
        requires
            bytes@.len() == TX_LEN,
        ensures
            spec_tx_decodes(tx, bytes@),
    {
        let to = Address(u128_from_le_bytes(&bytes[0..16]));
        let from = Address(u128_from_le_bytes(&bytes[16..32]));
        let nonce = u64_from_le_bytes(&bytes[32..40]);
        let amount = u64_from_le_bytes(&bytes[40..48]);
        let mut signature = [0u8; SIGNATURE_LEN];
        copy_into(&mut signature, 0, &bytes[48..144]);
        assert(signature@ =~= bytes@.subrange(48, 144));
        Transaction { to, from, nonce, amount, signature }
    }

    /// Encodes the transaction in its 144-byte wire format.
    pub fn to_bytes(self) -> (b: [u8; TX_LEN])
        ensures
            b@ == spec_tx_bytes(self),
    {
        let to = u128_to_le_bytes(self.to.0);
        let from = u128_to_le_bytes(self.from.0);
        let nonce = u64_to_le_bytes(self.nonce);
        let amount = u64_to_le_bytes(self.amount);
        let mut b = [0u8; TX_LEN];
        copy_into(&mut b, 0, to.as_slice());
        copy_into(&mut b, 16, from.as_slice());
        copy_into(&mut b, 32, nonce.as_slice());
        copy_into(&mut b, 40, amount.as_slice());
        copy_into(&mut b, 48, &self.signature);
        assert(b@ =~= spec_tx_bytes(self));
        b
    }

    /// The number of bytes of an encoded transaction.
    pub fn len(&self) -> (n: usize)
        ensures
            n == TX_LEN,
    {
        TX_LEN
    }

    /// Checks the transaction's signature; every signature is accepted.
    pub fn verify(&self) -> (e: Error)
        ensures
            e == OK,
    {
        OK
    }
}

/// Decoding an encoded transaction gives the transaction back.
pub proof fn lemma_tx_decode_encode(tx: Transaction)
    ensures
        spec_tx_bytes(tx).len() == TX_LEN,
        spec_tx_decodes(tx, spec_tx_bytes(tx)),
{
    vstd::bytes::lemma_auto_spec_u128_to_from_le_bytes();
    vstd::bytes::lemma_auto_spec_u64_to_from_le_bytes();
    let b = spec_tx_bytes(tx);
    assert(b.subrange(0, 16) =~= spec_u128_to_le_bytes(tx.to.0));
    assert(b.subrange(16, 32) =~= spec_u128_to_le_bytes(tx.from.0));
    assert(b.subrange(32, 40) =~= spec_u64_to_le_bytes(tx.nonce));
    assert(b.subrange(40, 48) =~= spec_u64_to_le_bytes(tx.amount));
    assert(b.subrange(48, 144) =~= tx.signature@);
}

/// Encoding a decoded transaction gives the 144 bytes back.
pub proof fn lemma_tx_encode_decode(tx: Transaction, b: Seq<u8>)
    requires
        b.len() == TX_LEN,
        spec_tx_decodes(tx, b),
    ensures
        spec_tx_bytes(tx) == b,
{
    vstd::bytes::lemma_auto_spec_u128_to_from_le_bytes();
    vstd::bytes::lemma_auto_spec_u64_to_from_le_bytes();
    assert(spec_tx_bytes(tx) =~= b.subrange(0, 16) + b.subrange(16, 32) + b.subrange(32, 40)
        + b.subrange(40, 48) + b.subrange(48, 144));
    assert(spec_tx_bytes(tx) =~= b);
}

} // verus!
