//! A proof-backed list of accounts, with a saved copy for rolling back.

use crate::error::{Error, ERR, OK};
use crate::number::Number;
use crate::store::{
    oof_entries, oof_root_outcome, spec_has_descendant, spec_pairs_map, store_copy, store_new,
    store_root,
};
use crate::tree_index::{first_leaf, pow2};
use core::marker::PhantomData;
use oof::Oof;
use vstd::bytes::{spec_u128_from_le_bytes, spec_u32_from_le_bytes, u128_from_le_bytes, u32_from_le_bytes};
use vstd::prelude::*;

verus! {

/// A handle on a node of the proof store, made from its general index.
pub trait RefNode: Sized {
    /// The general index of the node.
    spec fn node_index(&self) -> u128;

    /// The handle on the node at general index `idx`.
    fn new(idx: u128) -> (r: Self)
        ensures
            r.node_index() == idx,
    ;
}

/// The number of keys in the encoded proof `b` (its first four bytes).
pub open spec fn spec_proof_count(b: Seq<u8>) -> nat {
    spec_u32_from_le_bytes(b.subrange(0, 4)) as nat
}

/// The encoded proof `b` holds its count, then that many 16-byte keys, then
/// that many 32-byte chunks.
pub open spec fn spec_proof_wf(b: Seq<u8>) -> bool {
    &&& b.len() >= 4
    &&& 4 + 48 * spec_proof_count(b) <= b.len()
}

/// The `i`-th key of the encoded proof `b`.
pub open spec fn spec_proof_key(b: Seq<u8>, i: int) -> u128 {
    spec_u128_from_le_bytes(b.subrange(4 + 16 * i, 4 + 16 * i + 16))
}

/// The `i`-th chunk of the encoded proof `b`.
pub open spec fn spec_proof_value(b: Seq<u8>, i: int) -> Seq<u8> {
    let base = 4 + 16 * spec_proof_count(b);
    b.subrange(base + 32 * i, base + 32 * i + 32)
}

/// The chunks, by general index, that the encoded proof `b` describes (a
/// later duplicate key overrides an earlier one).
pub open spec fn spec_proof_map(b: Seq<u8>) -> Map<u128, Seq<u8>> {
    let n = spec_proof_count(b);
    spec_pairs_map(
        Seq::new(n, |i: int| spec_proof_key(b, i)),
        Seq::new(n, |i: int| spec_proof_value(b, i)),
        n,
    )
}

/// Every chunk of `before` with no descendant in `before` is in `after`
/// with the same value.
pub open spec fn spec_leaves_kept(before: Map<u128, Seq<u8>>, after: Map<u128, Seq<u8>>) -> bool {
    forall|k: u128| #[trigger]
        before.contains_key(k) && !spec_has_descendant(before, k) ==> after.contains_key(k)
            && after[k] == before[k]
}

/// Computing the root of `after` changes nothing and gives `root` again.
pub open spec fn spec_root_settled(after: Map<u128, Seq<u8>>, root: Result<Seq<u8>, u128>) -> bool {
    oof_root_outcome(after) == (after, root)
}

/// The general index of the account at `idx` in a list of depth `depth`.
pub open spec fn spec_list_node(depth: nat, idx: u128) -> int {
    pow2(depth) + idx + 1
}

/// A list of nodes of type `T` in a tree of depth `N`, read and written
/// through a proof store; a second store keeps a copy to roll back to.
pub struct RefList<T: RefNode, N: Number> {
    backend: Oof,
    temp: Oof,
    _t: PhantomData<T>,
    _n: PhantomData<N>,
}

impl<T: RefNode, N: Number> RefList<T, N> {
    /// The chunks that the list reads and writes.
    pub closed spec fn entries(&self) -> Map<u128, Seq<u8>> {
        oof_entries(self.backend)
    }

    /// The chunks saved by the last `begin`.
    pub closed spec fn saved(&self) -> Map<u128, Seq<u8>> {
        oof_entries(self.temp)
    }

    /// Builds the list from an encoded proof: a 4-byte little-endian count
    /// `n`, then `n` keys of 16 bytes (little endian), then `n` chunks of
    /// 32 bytes.
    pub fn from_raw(bytes: &[u8]) -> (r: Self)
        requires
            spec_proof_wf(bytes@),
        ensures
            r.entries() == spec_proof_map(bytes@),
            r.saved() == Map::<u128, Seq<u8>>::empty(),
    {
        let len = bytes.len();
        let count = u32_from_le_bytes(&bytes[0..4]) as usize;
        let base = 4 + 16 * count;
        let mut keys: Vec<u128> = Vec::new();
        let mut values: Vec<[u8; 32]> = Vec::new();
        let mut i: usize = 0;
        while i < count
            invariant
                len == bytes@.len(),
                spec_proof_wf(bytes@),
                count == spec_proof_count(bytes@),
                base == 4 + 16 * count,
                i <= count,
                keys@.len() == i,
                values@.len() == i,
                forall|j: int| 0 <= j < i ==> #[trigger] keys@[j] == spec_proof_key(bytes@, j),
                forall|j: int|
                    0 <= j < i ==> (#[trigger] values@[j])@ == spec_proof_value(bytes@, j),
            decreases count - i,
        {
            let k = u128_from_le_bytes(&bytes[4 + 16 * i..4 + 16 * i + 16]);
            let mut v = [0u8; 32];
            crate::codec::copy_into(&mut v, 0, &bytes[base + 32 * i..base + 32 * i + 32]);
            assert(v@ =~= spec_proof_value(bytes@, i as int));
            keys.push(k);
            values.push(v);
            i += 1;
        }
        let backend = store_new(keys.as_slice(), values.as_slice());
        let ghost n = spec_proof_count(bytes@);
        assert(keys@ =~= Seq::new(n, |j: int| spec_proof_key(bytes@, j)));
        assert(values@.map_values(|v: [u8; 32]| v@) =~= Seq::new(
            n,
            |j: int| spec_proof_value(bytes@, j),
        ));
        let temp = store_new(&[], &[]);
        assert(oof_entries(temp) =~= Map::<u128, Seq<u8>>::empty());
        RefList { backend, temp, _t: PhantomData, _n: PhantomData }
    }

    /// Checks that the root of the store is `a`; computing the root fills in
    /// the store's missing parent hashes.
    pub fn verify(&mut self, a: &[u8; 32]) -> (e: Error)
        ensures
            final(self).entries() == oof_root_outcome(old(self).entries()).0,
            final(self).saved() == old(self).saved(),
            spec_leaves_kept(old(self).entries(), final(self).entries()),
            oof_root_outcome(old(self).entries()).1 is Ok ==> spec_root_settled(
                final(self).entries(),
                oof_root_outcome(old(self).entries()).1,
            ),
            e == if oof_root_outcome(old(self).entries()).1 == Ok::<Seq<u8>, u128>(a@) {
                OK
            } else {
                ERR
            },
    {
        let b = store_root(&mut self.backend);
        match b {
            Ok(r) => {
                if bytes_eq(&r, a) {
                    OK
                } else {
                    ERR
                }
            },
            Err(_) => ERR,
        }
    }

    /// The handle on the account at `idx`: the node `2^N + idx + 1`.
    pub fn get_mut(&mut self, idx: u128) -> (r: T)
        requires
            N::spec_val() < 128,
            spec_list_node(N::spec_val(), idx) <= u128::MAX,
        ensures
            r.node_index() == spec_list_node(N::spec_val(), idx),
            *final(self) == *old(self),
    {
        let depth = N::val() as u128;
        let first = first_leaf(1, depth);
        T::new(first + idx + 1)
    }

    /// The proof store that the list reads.
    pub fn backend(&self) -> (b: &Oof)
        ensures
            oof_entries(*b) == self.entries(),
    {
        &self.backend
    }

    /// The proof store that the list reads and writes.
    pub fn backend_mut(&mut self) -> (b: &mut Oof)
        ensures
            oof_entries(*b) == old(self).entries(),
            final(self).entries() == oof_entries(*final(b)),
            final(self).saved() == old(self).saved(),
    {
        &mut self.backend
    }

    /// Saves a copy of the current chunks.
    pub fn begin(&mut self)
        ensures
            final(self).entries() == old(self).entries(),
            final(self).saved() == old(self).entries(),
    {
        self.temp = store_copy(&self.backend);
    }

    /// Restores the chunks saved by the last `begin`.
    pub fn rollback(&mut self)
        ensures
            final(self).entries() == old(self).saved(),
            final(self).saved() == old(self).saved(),
    {
        self.backend = store_copy(&self.temp);
    }

    /// The root of the store; computing it fills in the missing parent
    /// hashes.
    pub fn root(&mut self) -> (r: Result<[u8; 32], ProofError>)
        ensures
            final(self).entries() == oof_root_outcome(old(self).entries()).0,
            final(self).saved() == old(self).saved(),
            spec_leaves_kept(old(self).entries(), final(self).entries()),
            r is Ok ==> spec_root_settled(
                final(self).entries(),
                oof_root_outcome(old(self).entries()).1,
            ),
            match (r, oof_root_outcome(old(self).entries()).1) {
                (Ok(v), Ok(s)) => v@ == s,
                (Err(ProofError::EntryNotFound(k)), Err(j)) => k == j,
                _ => false,
            },
    {
        match store_root(&mut self.backend) {
            Ok(v) => Ok(v),
            Err(k) => Err(ProofError::EntryNotFound(k)),
        }
    }
}

/// A failure to compute a root: a node that is needed is missing.
#[derive(Clone, Copy, Debug, PartialEq, Eq, Structural)]
pub enum ProofError {
    EntryNotFound(u128),
}

/// Whether two 32-byte chunks are equal.
pub fn bytes_eq(a: &[u8; 32], b: &[u8; 32]) -> (r: bool)
    ensures
        r == (a@ == b@),
{
    let mut i: usize = 0;
    while i < 32
        invariant
            i <= 32,
            forall|j: int| 0 <= j < i ==> a@[j] == b@[j],
        decreases 32 - i,
    {
        if a[i] != b[i] {
            return false;
        }
        i += 1;
    }
    assert(a@ =~= b@);
    true
}

/// Rolling back after `begin` restores the chunks that `begin` saw, whatever
/// was done in between that kept the saved copy (as `process_tx` does).
pub proof fn lemma_rollback_restores<T: RefNode, N: Number>(
    before: RefList<T, N>,
    begun: RefList<T, N>,
    worked: RefList<T, N>,
    rolled_back: RefList<T, N>,
)
    requires
        begun.entries() == before.entries(),
        begun.saved() == before.entries(),
        worked.saved() == begun.saved(),
        rolled_back.entries() == worked.saved(),
    ensures
        rolled_back.entries() == before.entries(),
{
}

} // verus!
