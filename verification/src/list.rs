//! A list of provable items, kept by index, from which a proof of the whole
//! state is generated.

use crate::number::{depth_u128, depth_u32, Number};
use crate::store::oof_entries;
use crate::tree::{
    lemma_key_order_is, spec_in_key_order, spec_key_order, spec_keys_below_half, spec_relocate,
    spec_trim_in_order, spec_trimmed, store_from_tree, tree_entries, tree_filled,
    tree_fill_subtree, tree_insert_subtree, tree_new, tree_trim,
};
use crate::tree_index::{
    first_leaf, last_power_of_two, lemma_last_power_of_two_le, lemma_pow2_below_128,
    lemma_pow2_monotone, lemma_subtree_index_injective, pow2,
    spec_subtree_index_to_general,
};
use arborist::Tree;
use core::marker::PhantomData;
use oof::Oof;
use std::collections::BTreeMap;
use vstd::prelude::*;
use vstd::std_specs::btree::increasing_seq;
use vstd::std_specs::cmp::OrdSpec;
use vstd::std_specs::iter::IteratorSpec;

verus! {

/// An item that can be written as a Merkle tree of chunks.
pub trait Provable {
    /// The chunks of the item's tree, by general index.
    spec fn spec_tree(&self) -> Map<u128, Seq<u8>>;

    /// The largest key that the item's tree can hold.
    spec fn max_tree_key() -> nat;

    /// The item's tree; its keys lie between 1 and `max_tree_key()`.
    fn to_tree(&self) -> (t: Tree)
        ensures
            tree_entries(t) == self.spec_tree(),
            forall|k: u128| #[trigger]
                tree_entries(t).contains_key(k) ==> 1 <= k <= Self::max_tree_key(),
    ;
}

/// A 32-byte chunk of zeros.
pub open spec fn spec_zero_chunk() -> Seq<u8> {
    Seq::new(32, |i: int| 0u8)
}

/// The chunks of the items of `m` at the keys `ks`, each tree moved under
/// the node `first + key`, later keys overriding earlier ones.
pub open spec fn spec_place_all<T: Provable>(m: Map<u128, T>, ks: Seq<u128>, first: nat) -> Map<
    u128,
    Seq<u8>,
>
    decreases ks.len(),
{
    if ks.len() == 0 {
        Map::empty()
    } else {
        spec_place_all(m, ks.drop_last(), first).union_prefer_right(
            spec_relocate(m[ks.last()].spec_tree(), (first + ks.last()) as u128),
        )
    }
}

/// The chunks of the proof of the items of `m` in a tree of depth `depth`
/// (see `spec_filled_list`), trimmed as `Tree::trim` does.
pub open spec fn spec_list_proof<T: Provable>(m: Map<u128, T>, depth: nat) -> Map<u128, Seq<u8>> {
    spec_trim_in_order(spec_filled_list(m, spec_key_order(m), depth))
}

/// Every item's tree, moved under its leaf, stays below `2^127`.
pub open spec fn spec_fits_half<T: Provable>(m: Map<u128, T>, depth: nat) -> bool {
    forall|k: u128| #[trigger]
        m.contains_key(k) ==> (pow2(depth) + k) * T::max_tree_key()
            < 0x8000_0000_0000_0000_0000_0000_0000_0000
}

/// Every item taken at the keys `ks` has its whole tree in the placed
/// chunks: each chunk `j` of the item at `k` sits at the general index of `j`
/// under the leaf `2^depth + k`, with its value.
pub proof fn lemma_every_item_placed<T: Provable>(
    m: Map<u128, T>,
    ks: Seq<u128>,
    depth: nat,
    k: u128,
    j: u128,
)
    requires
        depth < 127,
        forall|i: int| 0 <= i < ks.len() ==> m.contains_key(#[trigger] ks[i]),
        ks.contains(k),
        forall|key: u128| #[trigger] m.contains_key(key) ==> key < pow2(depth),
        forall|key: u128, c: u128|
            m.contains_key(key) && #[trigger] m[key].spec_tree().contains_key(c) ==> c >= 1 && (
            pow2(depth) + key) * c <= u128::MAX,
        m[k].spec_tree().contains_key(j),
    ensures
        ({
            let g = spec_subtree_index_to_general((pow2(depth) + k) as nat, j as nat) as u128;
            &&& spec_place_all(m, ks, pow2(depth)).contains_key(g)
            &&& spec_place_all(m, ks, pow2(depth))[g] == m[k].spec_tree()[j]
        }),
    decreases ks.len(),
{
    let p = pow2(depth);
    lemma_pow2_below_128(depth);
    lemma_pow2_monotone(0, depth);
    let i0 = choose|i: int| 0 <= i < ks.len() && ks[i] == k;
    assert(m.contains_key(ks[i0]));
    let root_k = (p + k) as u128;
    let gi = spec_subtree_index_to_general(root_k as nat, j as nat);
    lemma_last_power_of_two_le(j as nat);
    assert(0 <= gi <= root_k * j) by (nonlinear_arith)
        requires
            gi == root_k * j - (root_k - 1) * (j - last_power_of_two(j as nat)),
            root_k >= 1,
            last_power_of_two(j as nat) <= j,
    ;
    let g = gi as u128;
    let last = ks.last();
    let prev = spec_place_all(m, ks.drop_last(), p);
    assert(m.contains_key(ks[ks.len() - 1]));
    let root_l = (p + last) as u128;
    let sub_l = m[last].spec_tree();
    if last == k {
        assert(spec_relocate(sub_l, root_l).contains_key(g));
        let c = choose|c: u128| #[trigger]
            sub_l.contains_key(c) && spec_subtree_index_to_general(root_l as nat, c as nat) == g;
        lemma_subtree_index_injective(p, root_l as nat, c as nat, root_k as nat, j as nat);
    } else {
        let init = ks.drop_last();
        assert(init[i0] == k);
        assert forall|i: int| 0 <= i < init.len() implies m.contains_key(#[trigger] init[i]) by {
            assert(init[i] == ks[i]);
        }
        lemma_every_item_placed(m, init, depth, k, j);
        if spec_relocate(sub_l, root_l).contains_key(g) {
            let c = choose|c: u128| #[trigger]
                sub_l.contains_key(c) && spec_subtree_index_to_general(root_l as nat, c as nat) == g;
            lemma_subtree_index_injective(p, root_l as nat, c as nat, root_k as nat, j as nat);
        }
    }
}

/// Two lists that hold the same items have the same proof.
pub proof fn lemma_equal_lists_equal_proofs<T: Provable, N: Number>(a: List<T, N>, b: List<T, N>)
    requires
        a@ == b@,
    ensures
        spec_list_proof(a@, N::spec_val()) == spec_list_proof(b@, N::spec_val()),
{
}

/// The chunks of the proof of the items of `m`, taken in the order `ks`, in
/// a tree of depth `depth`: every item's tree under its leaf, the empty
/// subtrees filled in with zero chunks and the parents hashed up, then every
/// chunk that has a child dropped.
pub open spec fn spec_filled_list<T: Provable>(m: Map<u128, T>, ks: Seq<u128>, depth: nat) -> Map<
    u128,
    Seq<u8>,
> {
    tree_filled(spec_place_all(m, ks, pow2(depth)), 1, depth as u32, spec_zero_chunk())
}

/// A list of items indexed below `2^N`.
pub struct List<T: Provable, N: Number> {
    backend: BTreeMap<u128, T>,
    _t: PhantomData<T>,
    _n: PhantomData<N>,
}

impl<T: Provable, N: Number> View for List<T, N> {
    type V = Map<u128, T>;

    closed spec fn view(&self) -> Map<u128, T> {
        self.backend@
    }
}

impl<T: Provable, N: Number> List<T, N> {
    #[verifier::type_invariant]
    closed spec fn inv(self) -> bool {
        forall|k: u128| #[trigger] self.backend@.contains_key(k) ==> k < pow2(N::spec_val())
    }

    /// An empty list.
    pub fn new() -> (l: Self)
        ensures
            l@ == Map::<u128, T>::empty(),
    {
        List { backend: BTreeMap::new(), _t: PhantomData, _n: PhantomData }
    }

    /// The item at `idx`, if there is one; `idx` must be below `2^N`.
    pub fn get(&self, idx: u128) -> (r: Option<&T>)
        requires
            N::spec_val() < 128,
            idx < pow2(N::spec_val()),
        ensures
            r == if self@.contains_key(idx) {
                Some(&self@[idx])
            } else {
                None
            },
    {
        broadcast use vstd::std_specs::btree::group_btree_axioms;
        broadcast use vstd::laws_cmp::group_laws_cmp;

        self.backend.get(&idx)
    }

    /// Stores `val` at `idx`, which must be below `2^N`, and returns the item
    /// that was there.
    pub fn insert(&mut self, idx: u128, val: T) -> (r: Option<T>)
        requires
            N::spec_val() < 128,
            idx < pow2(N::spec_val()),
        ensures
            final(self)@ == old(self)@.insert(idx, val),
            r == if old(self)@.contains_key(idx) {
                Some(old(self)@[idx])
            } else {
                None
            },
    {
        broadcast use vstd::std_specs::btree::group_btree_axioms;
        broadcast use vstd::laws_cmp::group_laws_cmp;

        proof {
            use_type_invariant(&*self);
        }
        let mut backend = BTreeMap::new();
        core::mem::swap(&mut backend, &mut self.backend);
        let r = backend.insert(idx, val);
        self.backend = backend;
        r
    }

    /// The proof of the whole list: every item's tree under the leaf
    /// `2^N + index` of a tree of depth `N`, the empty subtrees filled with
    /// zero chunks, the parents hashed up, and every chunk that has a child
    /// dropped.
    pub fn to_proof(&self) -> (p: Oof)
        requires
            N::spec_val() < 127,
            forall|k: u128| #[trigger]
                self@.contains_key(k) ==> (pow2(N::spec_val()) + k) * T::max_tree_key()
                    <= u128::MAX,
        ensures
            spec_in_key_order(spec_key_order(self@), self@),
            oof_entries(p) == spec_list_proof(self@, N::spec_val()),
            spec_fits_half(self@, N::spec_val()) ==> oof_entries(p) == spec_trimmed(
                spec_filled_list(self@, spec_key_order(self@), N::spec_val()),
            ),
    {
        broadcast use vstd::std_specs::btree::group_btree_axioms;

        proof {
            use_type_invariant(self);
            lemma_pow2_below_128(N::spec_val());
            lemma_u128_keys_ordered();
        }
        let depth = depth_u128::<N>();
        let first = first_leaf(1, depth);
        let mut tree = tree_new();
        let ghost m = self@;
        let iter = self.backend.iter();
        let ghost all = iter.remaining();
        let ghost ks = spec_keys_of(all);
        proof {
            assert(ks =~= all.map_values(|kv: (&u128, &T)| *kv.0));
            assert forall|k: u128| #[trigger] m.contains_key(k) implies ks.contains(k) by {
                assert(all.contains((&k, &m[k])));
                let j = choose|j: int| 0 <= j < all.len() && all[j] == (&k, &m[k]);
                assert(ks[j] == k);
            }
            assert forall|i: int| 0 <= i < ks.len() implies m.contains_key(#[trigger] ks[i]) by {
                assert(m.contains_key(*all[i].0));
            }
            lemma_increasing_keys(ks);
            assert(spec_in_key_order(ks, m));
            lemma_key_order_is(ks, m);
        }
        assert(forall|i: int|
            0 <= i < all.len() ==> m.contains_key(*(#[trigger] all[i]).0) && m[*all[i].0]
                == *all[i].1);
        let ghost mut done: nat = 0;
        for kv in it: iter
            invariant
                m == self@,
                all == it.seq(),
                ks == spec_keys_of(all),
                done == it.index(),
                forall|i: int|
                    0 <= i < all.len() ==> m.contains_key(*(#[trigger] all[i]).0) && m[*all[i].0]
                        == *all[i].1,
                N::spec_val() < 127,
                first == pow2(N::spec_val()),
                2 * pow2(N::spec_val()) <= u128::MAX,
                forall|k: u128| #[trigger]
                    m.contains_key(k) ==> (pow2(N::spec_val()) + k) * T::max_tree_key()
                        <= u128::MAX,
                forall|k: u128| #[trigger] m.contains_key(k) ==> k < pow2(N::spec_val()),
                tree_entries(tree) == spec_place_all(m, ks.take(it.index() as int), first as nat),
                spec_fits_half(m, N::spec_val()) ==> spec_keys_below_half(tree_entries(tree)),
        {
            let (k, v) = kv;
            assert(it.index() < it.seq().len());
            assert(it.seq()[it.index() as int] == kv);
            assert(m.contains_key(*k) && m[*k] == *v) by {
                assert(all[it.index() as int] == kv);
            }
            let sub = v.to_tree();
            let root = first + *k;
            assert forall|key: u128| #[trigger] tree_entries(sub).contains_key(key) implies root * key
                <= u128::MAX by {
                assert(root * key <= root * T::max_tree_key()) by (nonlinear_arith)
                    requires
                        key <= T::max_tree_key(),
                ;
            }
            let ghost before = tree_entries(tree);
            tree_insert_subtree(&mut tree, root, sub);
            proof {
                if spec_fits_half(m, N::spec_val()) {
                    assert(root * T::max_tree_key() < 0x8000_0000_0000_0000_0000_0000_0000_0000);
                    assert forall|g: u128| #[trigger] tree_entries(tree).contains_key(g) implies g
                        < 0x8000_0000_0000_0000_0000_0000_0000_0000 by {
                        if !before.contains_key(g) {
                            let key = choose|key: u128| #[trigger]
                                tree_entries(sub).contains_key(key)
                                    && spec_subtree_index_to_general(root as nat, key as nat) == g;
                            lemma_last_power_of_two_le(key as nat);
                            assert(spec_subtree_index_to_general(root as nat, key as nat)
                                <= root * key) by (nonlinear_arith)
                                requires
                                    root >= 1,
                                    last_power_of_two(key as nat) <= key,
                            ;
                            assert(root * key <= root * T::max_tree_key()) by (nonlinear_arith)
                                requires
                                    key <= T::max_tree_key(),
                            ;
                        }
                    }
                }
            }
            assert(ks.take(it.index() + 1).drop_last() =~= ks.take(it.index() as int));
            proof {
                done = done + 1;
            }
        }
        assert(done == all.len());
        assert(ks.take(done as int) =~= ks);
        let zeros = [0u8; 32];
        proof {
            broadcast use vstd::array::group_array_axioms;

            assert(zeros@ =~= spec_zero_chunk());
        }
        tree_fill_subtree(&mut tree, 1, depth_u32::<N>(), &zeros);
        let trimmed = tree_trim(tree);
        let p = store_from_tree(trimmed);
        p
    }
}

/// The keys of a sequence of map entries.
pub open spec fn spec_keys_of<T>(s: Seq<(&u128, &T)>) -> Seq<u128> {
    s.map_values(|kv: (&u128, &T)| *kv.0)
}

/// A sequence of `u128` keys that the map's iterator calls increasing is
/// strictly increasing.
proof fn lemma_increasing_keys(ks: Seq<u128>)
    requires
        increasing_seq(ks),
    ensures
        forall|i: int, j: int| 0 <= i < j < ks.len() ==> #[trigger] ks[i] < #[trigger] ks[j],
{
    broadcast use vstd::std_specs::btree::group_btree_axioms;
    broadcast use vstd::laws_cmp::group_laws_cmp;

    assert(vstd::laws_cmp::obeys_cmp::<u128>());
    assert forall|i: int, j: int| 0 <= i < j < ks.len() implies #[trigger] ks[i] < #[trigger] ks[j] by {
        assert(ks[i].cmp_spec(&ks[j]) is Less);
    }
}

/// The keys of a map of `u128` keys come out of its iterator in increasing
/// order.
proof fn lemma_u128_keys_ordered()
    ensures
        vstd::std_specs::btree::key_obeys_cmp_spec::<u128>(),
{
    broadcast use vstd::std_specs::btree::group_btree_axioms;
    broadcast use vstd::laws_cmp::group_laws_cmp;

}

} // verus!
