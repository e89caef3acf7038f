//! The input blob of a block: a transaction count, the transactions, and the
//! proof of the pre-state.

use crate::transaction::{spec_tx_decodes, Transaction, TX_LEN};
use vstd::bytes::{spec_u32_from_le_bytes, u32_from_le_bytes};
use vstd::prelude::*;

verus! {

/// The number of transactions that the blob `b` announces in its first four
/// bytes (little endian).
pub open spec fn spec_tx_count(b: Seq<u8>) -> nat {
    spec_u32_from_le_bytes(b.subrange(0, 4)) as nat
}

/// Where the transactions of the blob `b` end and its proof begins.
pub open spec fn spec_proof_offset(b: Seq<u8>) -> nat {
    4 + spec_tx_count(b) * (TX_LEN as nat)
}

/// The blob `b` holds its count and all the transactions that it announces.
pub open spec fn spec_blob_wf(b: Seq<u8>) -> bool {
    &&& b.len() >= 4
    &&& spec_proof_offset(b) <= b.len()
}

/// The bytes of the `i`-th transaction of the blob `b`.
pub open spec fn spec_tx_slot(b: Seq<u8>, i: int) -> Seq<u8> {
    b.subrange(4 + i * TX_LEN, 4 + (i + 1) * TX_LEN)
}

/// A view of the raw input bytes of a block.
pub struct RawBlob<'a>(&'a [u8]);

impl<'a> View for RawBlob<'a> {
    type V = Seq<u8>;

    closed spec fn view(&self) -> Seq<u8> {
        self.0@
    }
}

impl<'a> RawBlob<'a> {
    /// Wraps the input bytes.
    pub fn new(blob: &'a [u8]) -> (r: Self)
        ensures
            r@ == blob@,
    {
        RawBlob(blob)
    }

    /// The number of transactions announced by the first four bytes.
    pub fn tx_count(&self) -> (n: u32)
        requires
            self@.len() >= 4,
        ensures
            n == spec_tx_count(self@),
    {
        u32_from_le_bytes(&self.0[0..4])
    }

    /// Splits the proof off the blob: afterwards the blob holds the count and
    /// the transactions, and the rest is returned.
    pub fn raw_proof(&mut self) -> (p: &'a [u8])
        requires
            spec_blob_wf(old(self)@),
        ensures
            final(self)@ == old(self)@.subrange(0, spec_proof_offset(old(self)@) as int),
            p@ == old(self)@.subrange(spec_proof_offset(old(self)@) as int, old(self)@.len() as int),
    {
        let n = self.0.len();
        let count = self.tx_count() as usize;
        assert(count * TX_LEN <= self@.len()) by (nonlinear_arith)
            requires
                4 + count * TX_LEN <= self@.len(),
        ;
        let offset = count * TX_LEN + 4;
        let (txs, proof) = self.0.split_at(offset);
        self.0 = txs;
        proof
    }

    /// Decodes the transactions that the blob announces.
    pub fn transactions(&self) -> (txs: Vec<Transaction>)
        requires
            spec_blob_wf(self@),
        ensures
            txs@.len() == spec_tx_count(self@),
            forall|i: int|
                0 <= i < txs@.len() ==> spec_tx_decodes(#[trigger] txs@[i], spec_tx_slot(self@, i)),
    {
        let n = self.0.len();
        let count = self.tx_count() as usize;
        let mut txs: Vec<Transaction> = Vec::new();
        let mut i: usize = 0;
        while i < count
            invariant
                count == spec_tx_count(self@),
                n == self@.len(),
                spec_blob_wf(self@),
                i <= count,
                txs@.len() == i,
                forall|j: int|
                    0 <= j < i ==> spec_tx_decodes(#[trigger] txs@[j], spec_tx_slot(self@, j)),
            decreases count - i,
        {
            assert(4 + (i + 1) * TX_LEN <= 4 + count * TX_LEN) by (nonlinear_arith)
                requires
                    i < count,
            ;
            assert(4 + (i + 1) * TX_LEN == 4 + i * TX_LEN + TX_LEN) by (nonlinear_arith);
            let start = 4 + i * TX_LEN;
            let tx = Transaction::from_bytes(&self.0[start..start + TX_LEN]);
            txs.push(tx);
            i += 1;
        }
        txs
    }
}

} // verus!
