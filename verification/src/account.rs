//! Accounts, and handles that read and write an account's chunks in a proof
//! store.
//!
//! An account is a subtree of depth 3 under its node: the balance and the
//! nonce are the chunks at subtree indices 5 and 6 (little endian in their
//! first 8 bytes), and the 65-byte public key spans the chunks at 16, 17 and
//! the first byte of 18.

use crate::crypto::PublicKey;
use crate::list::{spec_zero_chunk, Provable};
use crate::reflist::RefNode;
use crate::tree::{tree_entries, tree_filled, tree_fill_subtree, tree_insert, tree_new};
use arborist::Tree;
use crate::store::{oof_entries, spec_store_set, store_get, store_set};
use crate::tree_index::{lemma_small_subtree_indices, spec_subtree_index_to_general, subtree_index_to_general};
use oof::Oof;
use vstd::bytes::{spec_u64_from_le_bytes, spec_u64_to_le_bytes, u64_from_le_bytes, u64_to_le_bytes};
use vstd::array::spec_array_fill_for_copy_type;
use vstd::prelude::*;

verus! {

/// Subtree index of the root of the public key's chunks.
pub const PUBKEY_ROOT_IDX: u128 = 4;

/// Subtree index of the balance chunk.
pub const BALANCE_IDX: u128 = 5;

/// Subtree index of the nonce chunk.
pub const NONCE_IDX: u128 = 6;

/// Subtree index of the padding chunk next to the nonce.
pub const PADDING_IDX: u128 = 7;

/// Subtree index of the first 32 bytes of the public key.
pub const PUBKEY_1_IDX: u128 = 16;

/// Subtree index of the next 32 bytes of the public key.
pub const PUBKEY_2_IDX: u128 = 17;

/// Subtree index of the chunk holding the last byte of the public key.
pub const PUBKEY_3_IDX: u128 = 18;

/// Subtree index of the padding chunk after the public key.
pub const PUBKEY_PADDING: u128 = 19;

/// An account: its balance, its nonce and its public key.
#[derive(Clone, Copy, Debug)]
pub struct Account {
    pub balance: u64,
    pub nonce: u64,
    pub pubkey: PublicKey,
}

/// The general index of the chunk at subtree index `rel` of the account whose
/// node is `idx`.
pub open spec fn spec_account_key(idx: u128, rel: u128) -> int {
    spec_subtree_index_to_general(idx as nat, rel as nat)
}

/// The number held by a chunk: its first 8 bytes, little endian.
pub open spec fn spec_chunk_u64(c: Seq<u8>) -> u64 {
    spec_u64_from_le_bytes(c.subrange(0, 8))
}

/// The chunk that holds the number `x`: its 8 little-endian bytes, then 24
/// zero bytes.
pub open spec fn spec_u64_chunk(x: u64) -> Seq<u8> {
    spec_u64_to_le_bytes(x) + Seq::new(24, |i: int| 0u8)
}

/// The account whose node is `idx` has its chunk `rel` in `m`.
pub open spec fn spec_has_chunk(m: Map<u128, Seq<u8>>, idx: u128, rel: u128) -> bool {
    &&& idx >= 1
    &&& idx * rel <= u128::MAX
    &&& m.contains_key(spec_account_key(idx, rel) as u128)
}

/// The 32-byte chunk that holds `val` in its first bytes, zero-padded.
pub fn make_value(val: &[u8]) -> (buf: [u8; 32])
    requires
        val@.len() <= 32,
    ensures
        buf@ == val@ + Seq::new((32 - val@.len()) as nat, |i: int| 0u8),
{
    let mut buf = [0u8; 32];
    crate::codec::copy_into(&mut buf, 0, val);
    assert(buf@ =~= val@ + Seq::new((32 - val@.len()) as nat, |i: int| 0u8));
    buf
}

/// A handle on the account whose node has general index `idx`.
pub struct RefAccount {
    idx: u128,
}

impl RefNode for RefAccount {
    closed spec fn node_index(&self) -> u128 {
        self.idx
    }

    fn new(idx: u128) -> (r: Self) {
        RefAccount { idx }
    }
}

impl RefAccount {
    fn key(&self, rel: u128) -> (k: u128)
        requires
            self.node_index() >= 1,
            self.node_index() * rel <= u128::MAX,
        ensures
            k == spec_account_key(self.node_index(), rel),
    {
        subtree_index_to_general(self.idx, rel)
    }

    fn read_u64(&self, backend: &Oof, rel: u128) -> (v: u64)
        requires
            spec_has_chunk(oof_entries(*backend), self.node_index(), rel),
        ensures
            v == spec_chunk_u64(oof_entries(*backend)[spec_account_key(self.node_index(), rel) as u128]),
    {
        let key = self.key(rel);
        let bytes = store_get(backend, key).unwrap();
        u64_from_le_bytes(&bytes[0..8])
    }

    fn write_u64(&mut self, backend: &mut Oof, rel: u128, value: u64)
        requires
            old(self).node_index() >= 1,
            old(self).node_index() * rel <= u128::MAX,
        ensures
            *final(self) == *old(self),
            oof_entries(*final(backend)) == spec_store_set(
                oof_entries(*old(backend)),
                spec_account_key(old(self).node_index(), rel) as u128,
                spec_u64_chunk(value),
            ),
    {
        let key = self.key(rel);
        let le = u64_to_le_bytes(value);
        let mut buf = [0u8; 32];
        crate::codec::copy_into(&mut buf, 0, le.as_slice());
        assert(buf@ =~= spec_u64_chunk(value));
        store_set(backend, key, buf);
    }

    /// The account's balance.
    pub fn balance(&self, backend: &Oof) -> (b: u64)
        requires
            spec_has_chunk(oof_entries(*backend), self.node_index(), BALANCE_IDX),
        ensures
            b == spec_chunk_u64(
                oof_entries(*backend)[spec_account_key(self.node_index(), BALANCE_IDX) as u128],
            ),
    {
        self.read_u64(backend, BALANCE_IDX)
    }

    /// Writes the account's balance.
    pub fn set_balance(&mut self, backend: &mut Oof, balance: u64)
        requires
            old(self).node_index() >= 1,
            old(self).node_index() * BALANCE_IDX <= u128::MAX,
        ensures
            *final(self) == *old(self),
            oof_entries(*final(backend)) == spec_store_set(
                oof_entries(*old(backend)),
                spec_account_key(old(self).node_index(), BALANCE_IDX) as u128,
                spec_u64_chunk(balance),
            ),
    {
        self.write_u64(backend, BALANCE_IDX, balance)
    }

    /// The account's nonce.
    pub fn nonce(&self, backend: &Oof) -> (n: u64)
        requires
            spec_has_chunk(oof_entries(*backend), self.node_index(), NONCE_IDX),
        ensures
            n == spec_chunk_u64(
                oof_entries(*backend)[spec_account_key(self.node_index(), NONCE_IDX) as u128],
            ),
    {
        self.read_u64(backend, NONCE_IDX)
    }

    /// Adds one to the account's nonce.
    pub fn inc_nonce(&mut self, backend: &mut Oof)
        requires
            spec_has_chunk(oof_entries(*old(backend)), old(self).node_index(), NONCE_IDX),
            spec_chunk_u64(
                oof_entries(*old(backend))[spec_account_key(old(self).node_index(), NONCE_IDX) as u128],
            ) < u64::MAX,
        ensures
            *final(self) == *old(self),
            oof_entries(*final(backend)) == spec_store_set(
                oof_entries(*old(backend)),
                spec_account_key(old(self).node_index(), NONCE_IDX) as u128,
                spec_u64_chunk(
                    (spec_chunk_u64(
                        oof_entries(*old(backend))[spec_account_key(
                            old(self).node_index(),
                            NONCE_IDX,
                        ) as u128],
                    ) + 1) as u64,
                ),
            ),
    {
        let nonce = self.nonce(backend) + 1;
        self.write_u64(backend, NONCE_IDX, nonce)
    }

    /// The account's public key.
    pub fn pubkey(&self, backend: &Oof) -> (k: [u8; 65])
        requires
            spec_has_chunk(oof_entries(*backend), self.node_index(), PUBKEY_1_IDX),
            spec_has_chunk(oof_entries(*backend), self.node_index(), PUBKEY_2_IDX),
            spec_has_chunk(oof_entries(*backend), self.node_index(), PUBKEY_3_IDX),
        ensures
            k@ == oof_entries(*backend)[spec_account_key(self.node_index(), PUBKEY_1_IDX) as u128]
                + oof_entries(*backend)[spec_account_key(self.node_index(), PUBKEY_2_IDX) as u128]
                + oof_entries(*backend)[spec_account_key(
                self.node_index(),
                PUBKEY_3_IDX,
            ) as u128].subrange(0, 1),
    {
        let bytes_0 = store_get(backend, self.key(PUBKEY_1_IDX)).unwrap();
        let bytes_1 = store_get(backend, self.key(PUBKEY_2_IDX)).unwrap();
        let bytes_2 = store_get(backend, self.key(PUBKEY_3_IDX)).unwrap();
        let mut buf = [0u8; 65];
        crate::codec::copy_into(&mut buf, 0, &bytes_0[0..32]);
        crate::codec::copy_into(&mut buf, 32, &bytes_1[0..32]);
        crate::codec::copy_into(&mut buf, 64, &bytes_2[0..1]);
        assert(bytes_0@.subrange(0, 32) =~= bytes_0@);
        assert(bytes_1@.subrange(0, 32) =~= bytes_1@);
        assert(buf@ =~= bytes_0@ + bytes_1@ + bytes_2@.subrange(0, 1));
        buf
    }
}

/// The chunks of an account before its subtrees are filled: balance at 5,
/// nonce at 6, padding at 7, and the public key over 16, 17 and 18, with a
/// padding chunk at 19.
pub open spec fn spec_account_leaves(a: Account) -> Map<u128, Seq<u8>> {
    let zeros = spec_zero_chunk();
    Map::empty().insert(BALANCE_IDX, spec_u64_chunk(a.balance)).insert(
        NONCE_IDX,
        spec_u64_chunk(a.nonce),
    ).insert(PUBKEY_1_IDX, a.pubkey.0@.subrange(0, 32)).insert(
        PUBKEY_2_IDX,
        a.pubkey.0@.subrange(32, 64),
    ).insert(PUBKEY_3_IDX, a.pubkey.0@.subrange(64, 65) + Seq::new(31, |i: int| 0u8)).insert(
        PUBKEY_PADDING,
        zeros,
    ).insert(PADDING_IDX, zeros)
}

impl Provable for Account {
    /// The account's leaves, with the public key's subtree (under 4, two
    /// levels deep) and then the whole tree (two levels) filled with zero
    /// chunks and hashed up.
    open spec fn spec_tree(&self) -> Map<u128, Seq<u8>> {
        tree_filled(
            tree_filled(spec_account_leaves(*self), PUBKEY_ROOT_IDX, 2, spec_zero_chunk()),
            1,
            2,
            spec_zero_chunk(),
        )
    }

    open spec fn max_tree_key() -> nat {
        19
    }

    fn to_tree(&self) -> (t: Tree)
        ensures
            forall|k: u128| #[trigger]
                spec_account_leaves(*self).contains_key(k) ==> tree_entries(t).contains_key(k)
                    && tree_entries(t)[k] == spec_account_leaves(*self)[k],
    {
        let mut map = tree_new();
        let balance = u64_to_le_bytes(self.balance);
        let nonce = u64_to_le_bytes(self.nonce);
        tree_insert(&mut map, BALANCE_IDX, make_value(balance.as_slice()));
        tree_insert(&mut map, NONCE_IDX, make_value(nonce.as_slice()));
        tree_insert(&mut map, PUBKEY_1_IDX, make_value(&self.pubkey.0[0..32]));
        tree_insert(&mut map, PUBKEY_2_IDX, make_value(&self.pubkey.0[32..64]));
        tree_insert(&mut map, PUBKEY_3_IDX, make_value(&self.pubkey.0[64..65]));
        tree_insert(&mut map, PUBKEY_PADDING, [0u8; 32]);
        tree_insert(&mut map, PADDING_IDX, [0u8; 32]);
        proof {
            broadcast use vstd::array::group_array_axioms;

            assert(spec_u64_to_le_bytes(self.balance) + Seq::new(24, |i: int| 0u8)
                =~= spec_u64_chunk(self.balance));
            assert(self.pubkey.0@.subrange(0, 32) + Seq::new(0, |i: int| 0u8)
                =~= self.pubkey.0@.subrange(0, 32));
            assert(self.pubkey.0@.subrange(32, 64) + Seq::new(0, |i: int| 0u8)
                =~= self.pubkey.0@.subrange(32, 64));
            let z = spec_array_fill_for_copy_type::<u8, 32>(0u8);
            assert(z@ =~= spec_zero_chunk());
            assert(tree_entries(map) =~= spec_account_leaves(*self));
            reveal_with_fuel(crate::tree_index::pow2, 3);
        }
        tree_fill_subtree(&mut map, PUBKEY_ROOT_IDX, 2, &[0u8; 32]);
        tree_fill_subtree(&mut map, 1, 2, &[0u8; 32]);
        map
    }
}

/// The number written in a chunk is the number read back from it.
pub proof fn lemma_u64_chunk_roundtrip(x: u64)
    ensures
        spec_u64_chunk(x).len() == 32,
        spec_chunk_u64(spec_u64_chunk(x)) == x,
{
    vstd::bytes::lemma_auto_spec_u64_to_from_le_bytes();
    assert(spec_u64_to_le_bytes(x).len() == 8);
    assert(spec_u64_chunk(x).subrange(0, 8) =~= spec_u64_to_le_bytes(x));
}

/// Writing an account's balance and reading it back gives the balance
/// written; the account's nonce is left as it was.
pub proof fn lemma_balance_write_read(m: Map<u128, Seq<u8>>, idx: u128, balance: u64)
    requires
        idx >= 1,
        idx * BALANCE_IDX <= u128::MAX,
    ensures
        ({
            let key = spec_account_key(idx, BALANCE_IDX) as u128;
            let after = spec_store_set(m, key, spec_u64_chunk(balance));
            &&& spec_has_chunk(after, idx, BALANCE_IDX)
            &&& spec_chunk_u64(after[key]) == balance
            &&& spec_has_chunk(m, idx, NONCE_IDX) ==> {
                let nonce_key = spec_account_key(idx, NONCE_IDX) as u128;
                &&& spec_has_chunk(after, idx, NONCE_IDX)
                &&& after[nonce_key] == m[nonce_key]
            }
        }),
{
    lemma_small_subtree_indices(idx as nat);
    lemma_u64_chunk_roundtrip(balance);
}

/// Writing an account's nonce and reading it back gives the nonce written;
/// the account's balance is left as it was.
pub proof fn lemma_nonce_write_read(m: Map<u128, Seq<u8>>, idx: u128, nonce: u64)
    requires
        idx >= 1,
        idx * NONCE_IDX <= u128::MAX,
    ensures
        ({
            let key = spec_account_key(idx, NONCE_IDX) as u128;
            let after = spec_store_set(m, key, spec_u64_chunk(nonce));
            &&& spec_has_chunk(after, idx, NONCE_IDX)
            &&& spec_chunk_u64(after[key]) == nonce
            &&& spec_has_chunk(m, idx, BALANCE_IDX) ==> {
                let balance_key = spec_account_key(idx, BALANCE_IDX) as u128;
                &&& spec_has_chunk(after, idx, BALANCE_IDX)
                &&& after[balance_key] == m[balance_key]
            }
        }),
{
    lemma_small_subtree_indices(idx as nat);
    lemma_u64_chunk_roundtrip(nonce);
}

/// A store that holds an account's leaves under the root node 1 gives the
/// account's balance, nonce and public key back.
pub proof fn lemma_account_leaves_read_back(a: Account, m: Map<u128, Seq<u8>>)
    requires
        forall|k: u128| #[trigger]
            spec_account_leaves(a).contains_key(k) ==> m.contains_key(k) && m[k]
                == spec_account_leaves(a)[k],
    ensures
        spec_has_chunk(m, 1, BALANCE_IDX),
        spec_has_chunk(m, 1, NONCE_IDX),
        spec_has_chunk(m, 1, PUBKEY_1_IDX),
        spec_has_chunk(m, 1, PUBKEY_2_IDX),
        spec_has_chunk(m, 1, PUBKEY_3_IDX),
        spec_chunk_u64(m[spec_account_key(1, BALANCE_IDX) as u128]) == a.balance,
        spec_chunk_u64(m[spec_account_key(1, NONCE_IDX) as u128]) == a.nonce,
        m[spec_account_key(1, PUBKEY_1_IDX) as u128] + m[spec_account_key(1, PUBKEY_2_IDX) as u128]
            + m[spec_account_key(1, PUBKEY_3_IDX) as u128].subrange(0, 1) == a.pubkey.0@,
{
    lemma_small_subtree_indices(1);
    lemma_u64_chunk_roundtrip(a.balance);
    lemma_u64_chunk_roundtrip(a.nonce);
    let l = spec_account_leaves(a);
    assert(l.contains_key(5) && l.contains_key(6) && l.contains_key(16) && l.contains_key(17)
        && l.contains_key(18));
    assert(m[18].subrange(0, 1) =~= a.pubkey.0@.subrange(64, 65));
    assert(m[16] + m[17] + m[18].subrange(0, 1) =~= a.pubkey.0@);
}

} // verus!
