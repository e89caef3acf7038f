//! The proof store: the chunks of a Merkle tree that a block can see, held by
//! `oof::Oof`, keyed by general index.

use crate::tree_index::pow2;
use oof::Oof;
use vstd::prelude::*;

verus! {

#[verifier::external_type_specification]
#[verifier::external_body]
pub struct ExOof(Oof);

/// The chunks that the store `o` holds, by general index; each is 32 bytes.
pub uninterp spec fn oof_entries(o: Oof) -> Map<u128, Seq<u8>>;

/// What `Oof::root` does to a store that holds `m`: the chunks it holds
/// afterwards (it hashes up every missing parent it can), and what it
/// returns (the chunk at index 1, or the index of a node it found missing).
pub uninterp spec fn oof_root_outcome(m: Map<u128, Seq<u8>>) -> (
    Map<u128, Seq<u8>>,
    Result<Seq<u8>, u128>,
);

/// The map that inserting `values[i]` at `keys[i]`, for `i` from 0 to
/// `n - 1` in turn, builds from an empty one.
pub open spec fn spec_pairs_map(keys: Seq<u128>, values: Seq<Seq<u8>>, n: nat) -> Map<u128, Seq<u8>>
    decreases n,
{
    if n == 0 {
        Map::empty()
    } else {
        spec_pairs_map(keys, values, (n - 1) as nat).insert(keys[n - 1], values[n - 1])
    }
}

/// What `Oof::set` makes of `m`: the parent of `key` is dropped (its hash is
/// stale) and `value` is stored at `key`.
pub open spec fn spec_store_set(m: Map<u128, Seq<u8>>, key: u128, value: Seq<u8>) -> Map<u128, Seq<u8>> {
    m.remove(key / 2).insert(key, value)
}

/// `a` is a strict ancestor of `j`: `j / 2^d == a` for some `d >= 1`.
pub open spec fn spec_is_ancestor(a: u128, j: u128) -> bool {
    exists|d: nat| d >= 1 && #[trigger] (j as nat / pow2(d)) == a
}

/// Some key of `m` other than `k` lies below `k`.
pub open spec fn spec_has_descendant(m: Map<u128, Seq<u8>>, k: u128) -> bool {
    exists|j: u128| #[trigger] m.contains_key(j) && j != k && spec_is_ancestor(k, j)
}

/// Calls `Oof::new`, which inserts `values[i]` at `keys[i]` for each `i` in
/// turn into an empty map; it indexes `values` by each index of `keys`.
#[verifier::external_body]
pub(crate) fn store_new(keys: &[u128], values: &[[u8; 32]]) -> (o: Oof)
    requires
        keys@.len() <= values@.len(),
    ensures
        oof_entries(o) == spec_pairs_map(
            keys@,
            values@.map_values(|v: [u8; 32]| v@),
            keys@.len(),
        ),
{
    Oof::new(keys, values)
}

/// Calls `Oof::from_map` on a clone of the store's map: a store that holds
/// the same chunks.
#[verifier::external_body]
pub(crate) fn store_copy(o: &Oof) -> (c: Oof)
    ensures
        oof_entries(c) == oof_entries(*o),
{
    Oof::from_map(o.map.clone())
}

/// Calls `Oof::get`, which looks the key up in the store's map.
#[verifier::external_body]
pub(crate) fn store_get(o: &Oof, key: u128) -> (r: Option<[u8; 32]>)
    ensures
        match r {
            Some(v) => oof_entries(*o).contains_key(key) && oof_entries(*o)[key] == v@,
            None => !oof_entries(*o).contains_key(key),
        },
{
    o.get(&key).copied()
}

/// Calls `Oof::set`, which removes the parent of `key` (`key / 2`) from the
/// map and then inserts `value` at `key`.
#[verifier::external_body]
pub(crate) fn store_set(o: &mut Oof, key: u128, value: [u8; 32])
    ensures
        oof_entries(*final(o)) == spec_store_set(oof_entries(*old(o)), key, value@),
{
    o.set(key, value);
}

/// Calls `Oof::root`, which hashes up the missing parents and returns the
/// chunk at index 1; its error names a node that it found missing.
///
/// Besides naming the outcome, the contract states two facts of its loop.
/// It only ever writes or drops keys that are strict ancestors of keys it
/// was given, so a chunk with no descendant in the store keeps its place and
/// value. And after a success every key above 1 has its sibling and its
/// parent in the store (the keys come off the heap in non-increasing order,
/// and only the children of a node, which are larger, can drop it), so a
/// second call finds nothing to hash and returns the same root.
#[verifier::external_body]
pub(crate) fn store_root(o: &mut Oof) -> (r: Result<[u8; 32], u128>)
    ensures
        oof_entries(*final(o)) == oof_root_outcome(oof_entries(*old(o))).0,
        match (r, oof_root_outcome(oof_entries(*old(o))).1) {
            (Ok(v), Ok(s)) => v@ == s,
            (Err(k), Err(j)) => k == j,
            _ => false,
        },
        forall|k: u128| #[trigger]
            oof_entries(*old(o)).contains_key(k) && !spec_has_descendant(oof_entries(*old(o)), k)
                ==> oof_entries(*final(o)).contains_key(k) && oof_entries(*final(o))[k]
                == oof_entries(*old(o))[k],
        r is Ok ==> oof_root_outcome(oof_entries(*final(o))) == (
            oof_entries(*final(o)),
            oof_root_outcome(oof_entries(*old(o))).1,
        ),
{
    match o.root() {
        Ok(v) => Ok(*v),
        Err(oof::Error::EntryNotFound(k)) => Err(k),
    }
}

} // verus!
