//! Building Merkle trees of chunks with `arborist::Tree`, keyed by general
//! index.

use crate::store::oof_entries;
use crate::tree_index::{pow2, spec_subtree_index_to_general};
use arborist::Tree;
use oof::Oof;
use vstd::prelude::*;

verus! {

#[verifier::external_type_specification]
#[verifier::external_body]
pub struct ExTree(Tree);

/// The chunks that the tree `t` holds, by general index; each is 32 bytes.
pub uninterp spec fn tree_entries(t: Tree) -> Map<u128, Seq<u8>>;

/// What `Tree::fill_subtree` makes of a tree holding `m`: below `root`, down
/// to `depth` levels, every missing sibling on the way up from a leaf that is
/// present is filled with the hash of an empty subtree of `default` leaves,
/// and every missing parent with the hash of its children.
pub uninterp spec fn tree_filled(m: Map<u128, Seq<u8>>, root: u128, depth: u32, default: Seq<u8>) -> Map<
    u128,
    Seq<u8>,
>;

/// The chunks of `sub` moved under the node `root`: the chunk at `k` goes to
/// the general index of `k` in the subtree rooted at `root`.
pub open spec fn spec_relocate(sub: Map<u128, Seq<u8>>, root: u128) -> Map<u128, Seq<u8>> {
    Map::new(
        |g: u128|
            exists|k: u128| #[trigger]
                sub.contains_key(k) && spec_subtree_index_to_general(root as nat, k as nat) == g,
        |g: u128|
            sub[choose|k: u128| #[trigger]
                sub.contains_key(k) && spec_subtree_index_to_general(root as nat, k as nat) == g],
    )
}

/// The left child of `k`, as a `u128` computes it.
pub open spec fn spec_left_child(k: u128) -> u128 {
    if k <= u128::MAX / 2 {
        (2 * k) as u128
    } else {
        (2 * k - u128::MAX - 1) as u128
    }
}

/// The chunks of `m` that have no child in `m`.
pub open spec fn spec_trimmed(m: Map<u128, Seq<u8>>) -> Map<u128, Seq<u8>> {
    Map::new(
        |k: u128|
            m.contains_key(k) && !m.contains_key(spec_left_child(k)) && !m.contains_key(
                (spec_left_child(k) + 1) as u128,
            ),
        |k: u128| m[k],
    )
}

/// The empty map of chunks.
pub open spec fn spec_no_chunks() -> Map<u128, Seq<u8>> {
    Map::empty()
}

/// Every key of `m` is below `2^127`, so that doubling it does not wrap.
pub open spec fn spec_keys_below_half(m: Map<u128, Seq<u8>>) -> bool {
    forall|k: u128| #[trigger] m.contains_key(k) ==> k < 0x8000_0000_0000_0000_0000_0000_0000_0000
}

/// Calls `Tree::new`: an empty tree.
#[verifier::external_body]
pub(crate) fn tree_new() -> (fresh: Tree)
    ensures
        tree_entries(fresh) == spec_no_chunks(),
{
    Tree::new()
}

/// Calls `Tree::insert`, which inserts the chunk into the tree's map.
#[verifier::external_body]
pub(crate) fn tree_insert(t: &mut Tree, key: u128, val: [u8; 32])
    ensures
        tree_entries(*final(t)) == tree_entries(*old(t)).insert(key, val@),
{
    t.insert(key, val);
}

/// Calls `Tree::fill_subtree`. Its index arithmetic overflows unless
/// `root >= 1`, `depth < 128` and `(root + 1) * 2^depth`, which it computes
/// on the way to the last leaf, fits in a `u128`. Every key that it adds lies between `root` and that last
/// leaf, and it keeps every chunk that was there.
#[verifier::external_body]
pub(crate) fn tree_fill_subtree(t: &mut Tree, root: u128, depth: u32, default: &[u8; 32])
    requires
        root >= 1,
        depth < 128,
        (root + 1) * pow2(depth as nat) <= u128::MAX,
    ensures
        tree_entries(*final(t)) == tree_filled(tree_entries(*old(t)), root, depth, default@),
        forall|k: u128| #[trigger]
            tree_entries(*final(t)).contains_key(k) ==> tree_entries(*old(t)).contains_key(k) || (
            root <= k && k < (root + 1) * pow2(depth as nat)),
        forall|k: u128| #[trigger]
            tree_entries(*old(t)).contains_key(k) ==> tree_entries(*final(t)).contains_key(k)
                && tree_entries(*final(t))[k] == tree_entries(*old(t))[k],
{
    t.fill_subtree(root, depth, default);
}

/// Calls `Tree::insert_subtree`, which moves every chunk of `sub` under the
/// node `rooted_at` and inserts it; the move overflows unless
/// `rooted_at >= 1` and `rooted_at * k` fits in a `u128` for every key `k`.
#[verifier::external_body]
pub(crate) fn tree_insert_subtree(t: &mut Tree, rooted_at: u128, sub: Tree)
    requires
        rooted_at >= 1,
        forall|k: u128| #[trigger]
            tree_entries(sub).contains_key(k) ==> rooted_at * k <= u128::MAX,
    ensures
        tree_entries(*final(t)) == tree_entries(*old(t)).union_prefer_right(
            spec_relocate(tree_entries(sub), rooted_at),
        ),
{
    t.insert_subtree(rooted_at, sub);
}

/// Calls `Tree::trim`, which walks the keys of its (finite) map in
/// increasing order and drops each key that has a child, as a `u128`
/// computes it (doubling wraps), still in the map. Where every key is below
/// `2^127` no child is dropped before its parent is looked at, and the result
/// is the chunks that have no child.
#[verifier::external_body]
pub(crate) fn tree_trim(t: Tree) -> (r: Tree)
    ensures
        tree_entries(r) == spec_trim_in_order(tree_entries(t)),
        spec_keys_below_half(tree_entries(t)) ==> tree_entries(r) == spec_trimmed(tree_entries(t)),
{
    t.trim()
}

/// Calls `Oof::from_map` on the tree's map (arborist's `From<Tree>`): a
/// proof store holding the tree's chunks.
#[verifier::external_body]
pub(crate) fn store_from_tree(t: Tree) -> (o: Oof)
    ensures
        oof_entries(o) == tree_entries(t),
{
    Oof::from_map(t.into())
}

/// `ks` lists the keys of `m` in increasing order.
pub open spec fn spec_in_key_order<T>(ks: Seq<u128>, m: Map<u128, T>) -> bool {
    &&& forall|i: int, j: int| 0 <= i < j < ks.len() ==> #[trigger] ks[i] < #[trigger] ks[j]
    &&& forall|i: int| 0 <= i < ks.len() ==> m.contains_key(#[trigger] ks[i])
    &&& forall|k: u128| #[trigger] m.contains_key(k) ==> ks.contains(k)
}

/// The keys of `m` in increasing order.
pub open spec fn spec_key_order<T>(m: Map<u128, T>) -> Seq<u128> {
    choose|ks: Seq<u128>| spec_in_key_order(ks, m)
}

/// Two increasing sequences that hold the same keys are equal.
pub proof fn lemma_key_order_unique(a: Seq<u128>, b: Seq<u128>)
    requires
        forall|i: int, j: int| 0 <= i < j < a.len() ==> #[trigger] a[i] < #[trigger] a[j],
        forall|i: int, j: int| 0 <= i < j < b.len() ==> #[trigger] b[i] < #[trigger] b[j],
        forall|k: u128| a.contains(k) <==> b.contains(k),
    ensures
        a == b,
    decreases a.len() + b.len(),
{
    if a.len() == 0 {
        if b.len() > 0 {
            assert(b.contains(b[0]));
        }
        assert(a =~= b);
    } else if b.len() == 0 {
        assert(a.contains(a[0]));
    } else {
        let x = a.last();
        let y = b.last();
        assert(a.contains(x));
        assert(b.contains(y));
        let i = choose|i: int| 0 <= i < a.len() && a[i] == y;
        let j = choose|j: int| 0 <= j < b.len() && b[j] == x;
        assert(y <= x) by {
            if i < a.len() - 1 {
                assert(a[i] < a[a.len() - 1]);
            }
        }
        assert(x <= y) by {
            if j < b.len() - 1 {
                assert(b[j] < b[b.len() - 1]);
            }
        }
        let a1 = a.drop_last();
        let b1 = b.drop_last();
        assert forall|k: u128| a1.contains(k) <==> b1.contains(k) by {
            if a1.contains(k) {
                let p = choose|p: int| 0 <= p < a1.len() && a1[p] == k;
                assert(a[p] < a[a.len() - 1]);
                assert(b.contains(k));
                let q = choose|q: int| 0 <= q < b.len() && b[q] == k;
                assert(q != b.len() - 1);
                assert(b1[q] == k);
            }
            if b1.contains(k) {
                let p = choose|p: int| 0 <= p < b1.len() && b1[p] == k;
                assert(b[p] < b[b.len() - 1]);
                assert(a.contains(k));
                let q = choose|q: int| 0 <= q < a.len() && a[q] == k;
                assert(q != a.len() - 1);
                assert(a1[q] == k);
            }
        }
        lemma_key_order_unique(a1, b1);
        assert(a =~= a1.push(x));
        assert(b =~= b1.push(y));
    }
}

/// The keys of a map in increasing order are the ones `spec_key_order`
/// names.
pub proof fn lemma_key_order_is<T>(ks: Seq<u128>, m: Map<u128, T>)
    requires
        spec_in_key_order(ks, m),
    ensures
        spec_key_order(m) == ks,
        spec_in_key_order(spec_key_order(m), m),
{
    let c = spec_key_order(m);
    assert(spec_in_key_order(c, m));
    assert forall|k: u128| c.contains(k) <==> ks.contains(k) by {
        if c.contains(k) {
            let p = choose|p: int| 0 <= p < c.len() && c[p] == k;
            assert(m.contains_key(c[p]));
        }
        if ks.contains(k) {
            let p = choose|p: int| 0 <= p < ks.len() && ks[p] == k;
            assert(m.contains_key(ks[p]));
        }
    }
    lemma_key_order_unique(c, ks);
}

/// One step of `Tree::trim` on the map `cur`: the key `k` is dropped if one
/// of its children, as a `u128` computes them, is in `cur`.
pub open spec fn spec_trim_step(cur: Map<u128, Seq<u8>>, k: u128) -> Map<u128, Seq<u8>> {
    if cur.contains_key(spec_left_child(k)) || cur.contains_key((spec_left_child(k) + 1) as u128) {
        cur.remove(k)
    } else {
        cur
    }
}

/// The trim steps for the keys `ks`, taken in turn, on `m`.
pub open spec fn spec_trim_steps(m: Map<u128, Seq<u8>>, ks: Seq<u128>) -> Map<u128, Seq<u8>>
    decreases ks.len(),
{
    if ks.len() == 0 {
        m
    } else {
        spec_trim_step(spec_trim_steps(m, ks.drop_last()), ks.last())
    }
}

/// What `Tree::trim` makes of `m`: the trim steps for every key of `m`, in
/// increasing order.
pub open spec fn spec_trim_in_order(m: Map<u128, Seq<u8>>) -> Map<u128, Seq<u8>> {
    spec_trim_steps(m, spec_key_order(m))
}

} // verus!
