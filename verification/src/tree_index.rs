//! General-index arithmetic on perfect binary trees (the root has index 1,
//! and the children of `i` are `2i` and `2i + 1`).

use vstd::prelude::*;

verus! {

/// `2` to the power `n`.
pub open spec fn pow2(n: nat) -> nat
    decreases n,
{
    if n == 0 {
        1
    } else {
        2 * pow2((n - 1) as nat)
    }
}

/// The largest power of two that is at most `n` (and 0 for 0).
pub open spec fn last_power_of_two(n: nat) -> nat
    decreases n,
{
    if n < 2 {
        n
    } else {
        2 * last_power_of_two(n / 2)
    }
}

/// The general index of the first leaf of the subtree of depth `depth`
/// rooted at `root`.
pub open spec fn spec_first_leaf(root: nat, depth: nat) -> nat {
    root * pow2(depth)
}

/// The general index of the node that has index `index` inside the subtree
/// rooted at the general index `root`.
pub open spec fn spec_subtree_index_to_general(root: nat, index: nat) -> int {
    root * index - (root - 1) * (index - last_power_of_two(index))
}

/// Calls `bonsai::first_leaf`, which returns `root * 2^depth`.
#[verifier::external_body]
pub(crate) fn first_leaf(root: u128, depth: u128) -> (r: u128)
    requires
        depth < 128,
        root * pow2(depth as nat) <= u128::MAX,
    ensures
        r == spec_first_leaf(root as nat, depth as nat),
{
    bonsai::first_leaf(root, depth)
}

/// Calls `bonsai::subtree_index_to_general`, which returns
/// `root * index - (root - 1) * (index - last_power_of_two(index))`;
/// it overflows unless `root >= 1` and `root * index` fits in a `u128`.
#[verifier::external_body]
pub(crate) fn subtree_index_to_general(root: u128, index: u128) -> (r: u128)
    requires
        root >= 1,
        root * index <= u128::MAX,
    ensures
        r == spec_subtree_index_to_general(root as nat, index as nat),
{
    bonsai::subtree_index_to_general(root, index)
}

/// For an index of the first levels below a subtree root, the general index
/// is a plain affine function of the root.
pub proof fn lemma_small_subtree_indices(root: nat)
    requires
        root >= 1,
    ensures
        spec_subtree_index_to_general(root, 5) == 4 * root + 1,
        spec_subtree_index_to_general(root, 6) == 4 * root + 2,
        spec_subtree_index_to_general(root, 16) == 16 * root,
        spec_subtree_index_to_general(root, 17) == 16 * root + 1,
        spec_subtree_index_to_general(root, 18) == 16 * root + 2,
{
    reveal_with_fuel(last_power_of_two, 6);
    assert(last_power_of_two(5) == 4);
    assert(last_power_of_two(6) == 4);
    assert(last_power_of_two(16) == 16);
    assert(last_power_of_two(17) == 16);
    assert(last_power_of_two(18) == 16);
    assert(root * 5 - (root - 1) * 1 == 4 * root + 1) by (nonlinear_arith);
    assert(root * 6 - (root - 1) * 2 == 4 * root + 2) by (nonlinear_arith);
    assert(root * 16 - (root - 1) * 0 == 16 * root) by (nonlinear_arith);
    assert(root * 17 - (root - 1) * 1 == 16 * root + 1) by (nonlinear_arith);
    assert(root * 18 - (root - 1) * 2 == 16 * root + 2) by (nonlinear_arith);
}

/// `pow2` grows with its exponent.
pub proof fn lemma_pow2_monotone(a: nat, b: nat)
    requires
        a <= b,
    ensures
        pow2(a) <= pow2(b),
    decreases b,
{
    if a < b {
        lemma_pow2_monotone(a, (b - 1) as nat);
    }
}

/// Below 128, a power of two and its double fit in 129 bits: `2^n <= 2^127`.
pub proof fn lemma_pow2_below_128(n: nat)
    requires
        n < 128,
    ensures
        pow2(n) <= 0x8000_0000_0000_0000_0000_0000_0000_0000,
        2 * pow2(n) <= u128::MAX + 1,
        n < 127 ==> 2 * pow2(n) <= 0x8000_0000_0000_0000_0000_0000_0000_0000,
        n == 127 ==> pow2(n) == 0x8000_0000_0000_0000_0000_0000_0000_0000,
{
    reveal_with_fuel(pow2, 9);
    assert(pow2(8) == 256);
    assert(pow2(7) == 128);
    lemma_pow2_adds(8, 8);
    assert(pow2(16) == 0x1_0000);
    lemma_pow2_adds(16, 16);
    assert(pow2(32) == 0x1_0000_0000);
    lemma_pow2_adds(32, 32);
    assert(pow2(64) == 0x1_0000_0000_0000_0000);
    lemma_pow2_adds(64, 32);
    assert(pow2(96) == 0x1_0000_0000_0000_0000_0000_0000);
    lemma_pow2_adds(96, 16);
    assert(pow2(112) == 0x1_0000_0000_0000_0000_0000_0000_0000);
    lemma_pow2_adds(112, 8);
    assert(pow2(120) == 0x100_0000_0000_0000_0000_0000_0000_0000);
    lemma_pow2_adds(120, 7);
    assert(pow2(127) == 0x8000_0000_0000_0000_0000_0000_0000_0000);
    lemma_pow2_monotone(n, 127);
    if n < 127 {
        lemma_pow2_monotone(n, 126);
        assert(pow2(127) == 2 * pow2(126));
    }
}

/// `2^(a + b) == 2^a * 2^b`.
pub proof fn lemma_pow2_adds(a: nat, b: nat)
    ensures
        pow2(a + b) == pow2(a) * pow2(b),
    decreases b,
{
    if b > 0 {
        lemma_pow2_adds(a, (b - 1) as nat);
        assert(pow2(a + b) == 2 * pow2((a + b - 1) as nat));
        assert(pow2(a) * pow2(b) == pow2(a) * (2 * pow2((b - 1) as nat)));
        assert(pow2(a) * (2 * pow2((b - 1) as nat)) == 2 * (pow2(a) * pow2((b - 1) as nat)))
            by (nonlinear_arith);
    } else {
        assert(pow2(0) == 1);
        assert(a + b == a);
    }
}

/// The last power of two of `n` is at most `n`.
pub proof fn lemma_last_power_of_two_le(n: nat)
    ensures
        last_power_of_two(n) <= n,
    decreases n,
{
    if n >= 2 {
        lemma_last_power_of_two_le(n / 2);
    }
}

/// Below 120, a power of two is at most `2^119`.
pub proof fn lemma_pow2_below_120(n: nat)
    requires
        n < 120,
    ensures
        pow2(n) <= 0x80_0000_0000_0000_0000_0000_0000_0000,
{
    lemma_pow2_below_128(127);
    lemma_pow2_adds(119, 8);
    reveal_with_fuel(pow2, 9);
    assert(pow2(8) == 256);
    lemma_pow2_monotone(n, 119);
}

/// The position of the highest set bit of `n` (0 for 0 and 1).
pub open spec fn log2(n: nat) -> nat
    decreases n,
{
    if n < 2 {
        0
    } else {
        1 + log2(n / 2)
    }
}

/// The last power of two of `n >= 1` is `2^log2(n)`, and `n` lies below its
/// double.
pub proof fn lemma_last_power_of_two_bounds(n: nat)
    requires
        n >= 1,
    ensures
        last_power_of_two(n) == pow2(log2(n)),
        pow2(log2(n)) <= n < 2 * pow2(log2(n)),
    decreases n,
{
    if n >= 2 {
        lemma_last_power_of_two_bounds(n / 2);
        assert(pow2(log2(n)) == 2 * pow2(log2(n / 2)));
    }
}

/// A node of a subtree, written as a general index: the subtree root scaled
/// to the node's level, plus the node's offset in that level.
pub proof fn lemma_subtree_index_parts(r: nat, j: nat)
    requires
        r >= 1,
        j >= 1,
    ensures
        spec_subtree_index_to_general(r, j) == r * pow2(log2(j)) + (j - pow2(log2(j))),
        0 <= j - pow2(log2(j)) < pow2(log2(j)),
{
    lemma_last_power_of_two_bounds(j);
    let q = pow2(log2(j));
    assert(r * j - (r - 1) * (j - q) == r * q + (j - q)) by (nonlinear_arith);
}

/// Below roots of one level `[p, 2p)`, no two nodes (of index at least 1)
/// share a general index: the general index gives back the root and the
/// node.
pub proof fn lemma_subtree_index_injective(p: nat, r1: nat, j1: nat, r2: nat, j2: nat)
    requires
        p >= 1,
        p <= r1 < 2 * p,
        p <= r2 < 2 * p,
        j1 >= 1,
        j2 >= 1,
        spec_subtree_index_to_general(r1, j1) == spec_subtree_index_to_general(r2, j2),
    ensures
        r1 == r2,
        j1 == j2,
{
    lemma_subtree_index_parts(r1, j1);
    lemma_subtree_index_parts(r2, j2);
    let e1 = log2(j1);
    let e2 = log2(j2);
    let q1 = pow2(e1);
    let q2 = pow2(e2);
    let x1 = j1 - q1;
    let x2 = j2 - q2;
    let g = r1 * q1 + x1;
    assert(p * q1 <= g < 2 * p * q1) by (nonlinear_arith)
        requires
            g == r1 * q1 + x1,
            p <= r1 < 2 * p,
            0 <= x1 < q1,
    ;
    assert(p * q2 <= g < 2 * p * q2) by (nonlinear_arith)
        requires
            g == r2 * q2 + x2,
            p <= r2 < 2 * p,
            0 <= x2 < q2,
    ;
    if e1 < e2 {
        lemma_pow2_monotone(e1 + 1, e2);
        assert(pow2(e1 + 1) == 2 * q1);
        assert(p * q2 >= 2 * p * q1) by (nonlinear_arith)
            requires
                q2 >= 2 * q1,
                p >= 1,
        ;
    } else if e2 < e1 {
        lemma_pow2_monotone(e2 + 1, e1);
        assert(pow2(e2 + 1) == 2 * q2);
        assert(p * q1 >= 2 * p * q2) by (nonlinear_arith)
            requires
                q1 >= 2 * q2,
                p >= 1,
        ;
    } else {
        assert(r1 == r2) by (nonlinear_arith)
            requires
                r1 * q1 + x1 == r2 * q1 + x2,
                0 <= x1 < q1,
                0 <= x2 < q1,
        {
            if r1 < r2 {
                assert(r1 * q1 + x1 < (r1 + 1) * q1);
                assert((r1 + 1) * q1 <= r2 * q1);
            } else if r2 < r1 {
                assert(r2 * q1 + x2 < (r2 + 1) * q1);
                assert((r2 + 1) * q1 <= r1 * q1);
            }
        }
    }
}

} // verus!
