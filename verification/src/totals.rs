//! What a block keeps: over all the accounts of a list, transfers between
//! different accounts keep the total balance, raise the total of the nonces
//! by one each, and leave every public-key chunk as it was.

use crate::account::{
    lemma_u64_chunk_roundtrip, spec_account_key, spec_chunk_u64, PUBKEY_1_IDX, PUBKEY_3_IDX,
};
use crate::ee::{
    lemma_run_block_prefix, lemma_transfer_moves_amount, spec_balance_key, spec_balances_written, spec_nonce_key, spec_run_block, spec_slot_from,
    spec_slot_to, spec_slot_amount, spec_transfer, spec_transfer_ok,
};
use crate::reflist::spec_list_node;
use crate::transaction::{lemma_tx_decode_encode, spec_tx_bytes, Transaction};
use crate::blob::spec_tx_slot;
use crate::tree_index::{lemma_pow2_below_120, lemma_pow2_monotone, lemma_small_subtree_indices, pow2};
use vstd::prelude::*;

verus! {

/// `f(0) + f(1) + ... + f(n - 1)`.
pub open spec fn spec_sum(f: spec_fn(int) -> int, n: nat) -> int
    decreases n,
{
    if n == 0 {
        0
    } else {
        spec_sum(f, (n - 1) as nat) + f(n - 1)
    }
}

/// The balance of the account at each address, in a list of depth `depth`.
pub open spec fn spec_balance_of(m: Map<u128, Seq<u8>>, depth: nat) -> spec_fn(int) -> int {
    |a: int| spec_chunk_u64(m[spec_balance_key(depth, a as u128)]) as int
}

/// The nonce of the account at each address, in a list of depth `depth`.
pub open spec fn spec_nonce_of(m: Map<u128, Seq<u8>>, depth: nat) -> spec_fn(int) -> int {
    |a: int| spec_chunk_u64(m[spec_nonce_key(depth, a as u128)]) as int
}

/// The total balance of the `2^depth` accounts.
pub open spec fn spec_total_balance(m: Map<u128, Seq<u8>>, depth: nat) -> int {
    spec_sum(spec_balance_of(m, depth), pow2(depth))
}

/// The total of the nonces of the `2^depth` accounts.
pub open spec fn spec_total_nonce(m: Map<u128, Seq<u8>>, depth: nat) -> int {
    spec_sum(spec_nonce_of(m, depth), pow2(depth))
}

/// Every one of the `2^depth` accounts has its balance and nonce chunks.
pub open spec fn spec_accounts_present(m: Map<u128, Seq<u8>>, depth: nat) -> bool {
    forall|a: u128|
        a < pow2(depth) ==> #[trigger] m.contains_key(spec_balance_key(depth, a)) && m.contains_key(
            spec_nonce_key(depth, a),
        )
}

/// The public-key chunk `rel` of the account at `a`.
pub open spec fn spec_pubkey_key(depth: nat, a: u128, rel: u128) -> u128 {
    spec_account_key(spec_list_node(depth, a) as u128, rel) as u128
}

/// Every public-key chunk of the `2^depth` accounts is in `after` exactly
/// when it is in `before`, with the same value.
pub open spec fn spec_pubkeys_same(
    before: Map<u128, Seq<u8>>,
    after: Map<u128, Seq<u8>>,
    depth: nat,
) -> bool {
    forall|a: u128, rel: u128|
        a < pow2(depth) && PUBKEY_1_IDX <= rel <= PUBKEY_3_IDX ==> {
            let k = #[trigger] spec_pubkey_key(depth, a, rel);
            &&& before.contains_key(k) == after.contains_key(k)
            &&& before.contains_key(k) ==> after[k] == before[k]
        }
}

/// Changing `f` at two points by `dp` and `dq` changes its sum by as much as
/// of the change falls below `n`.
pub proof fn lemma_sum_two_changes(
    f: spec_fn(int) -> int,
    g: spec_fn(int) -> int,
    n: nat,
    p: int,
    q: int,
    dp: int,
    dq: int,
)
    requires
        p != q,
        0 <= p,
        0 <= q,
        forall|x: int| 0 <= x < n && x != p && x != q ==> #[trigger] g(x) == f(x),
        g(p) == f(p) + dp,
        g(q) == f(q) + dq,
    ensures
        spec_sum(g, n) == spec_sum(f, n) + (if p < n {
            dp
        } else {
            0
        }) + (if q < n {
            dq
        } else {
            0
        }),
    decreases n,
{
    if n > 0 {
        lemma_sum_two_changes(f, g, (n - 1) as nat, p, q, dp, dq);
        let x = n - 1;
        if x != p && x != q {
            assert(g(x) == f(x));
        }
    }
}

/// A transfer between two different accounts of a list keeps the total
/// balance, raises the total of the nonces by one, keeps every account's
/// chunks, and leaves the public-key chunks as they were.
pub proof fn lemma_transfer_keeps_totals(
    m: Map<u128, Seq<u8>>,
    depth: nat,
    to: u128,
    from: u128,
    amount: u64,
)
    requires
        depth < 120,
        spec_accounts_present(m, depth),
        to < pow2(depth),
        from < pow2(depth),
        to != from,
        spec_transfer_ok(m, depth, to, from, amount),
    ensures
        ({
            let after = spec_transfer(m, depth, to, from, amount);
            &&& spec_accounts_present(after, depth)
            &&& spec_total_balance(after, depth) == spec_total_balance(m, depth)
            &&& spec_total_nonce(after, depth) == spec_total_nonce(m, depth) + 1
            &&& spec_pubkeys_same(m, after, depth)
        }),
{
    let p = pow2(depth);
    lemma_pow2_below_120(depth);
    lemma_pow2_monotone(0, depth);
    let after = spec_transfer(m, depth, to, from, amount);
    let m2 = spec_balances_written(m, depth, to, from, amount);
    let ti = spec_list_node(depth, to);
    let fi = spec_list_node(depth, from);
    lemma_small_subtree_indices(ti as nat);
    lemma_small_subtree_indices(fi as nat);
    let tk = spec_balance_key(depth, to);
    let fk = spec_balance_key(depth, from);
    let nk = spec_nonce_key(depth, from);
    let to_balance = spec_chunk_u64(m[tk]);
    let from_balance = spec_chunk_u64(m[fk]);
    lemma_u64_chunk_roundtrip((to_balance + amount) as u64);
    lemma_u64_chunk_roundtrip((from_balance - amount) as u64);
    lemma_u64_chunk_roundtrip((spec_chunk_u64(m2[nk]) + 1) as u64);
    assert(p + 1 <= ti <= 2 * p);
    assert(p + 1 <= fi <= 2 * p);
    assert(p <= 0x80_0000_0000_0000_0000_0000_0000_0000);
    assert(tk == 4 * ti + 1);
    assert(fk == 4 * fi + 1);
    assert(nk == 4 * fi + 2);
    assert(m2[nk] == m[nk]);
    // every other account's chunks, and every public-key chunk, are untouched
    assert forall|a: u128| #![trigger spec_list_node(depth, a)]
        a < p implies {
        let j = spec_list_node(depth, a);
        &&& (a != to && a != from) ==> after.contains_key(spec_balance_key(depth, a)) && after[spec_balance_key(depth, a)]
            == m[spec_balance_key(depth, a)]
        &&& a != from ==> after.contains_key(spec_nonce_key(depth, a)) && after[spec_nonce_key(depth, a)]
            == m[spec_nonce_key(depth, a)]
        &&& forall|rel: u128|
            PUBKEY_1_IDX <= rel <= PUBKEY_3_IDX ==> {
                let k = #[trigger] spec_pubkey_key(depth, a, rel);
                &&& m.contains_key(k) == after.contains_key(k)
                &&& m.contains_key(k) ==> after[k] == m[k]
            }
    } by {
        let j = spec_list_node(depth, a);
        lemma_small_subtree_indices(j as nat);
        assert(p + 1 <= j <= 2 * p);
        assert(spec_balance_key(depth, a) == 4 * j + 1);
        assert(spec_nonce_key(depth, a) == 4 * j + 2);
        let bka = spec_balance_key(depth, a);
        let nka = spec_nonce_key(depth, a);
        assert(tk / 2 == 2 * ti);
        assert(fk / 2 == 2 * fi);
        assert(nk / 2 == 2 * fi + 1);
        if a != to && a != from {
            assert(bka != tk && bka != fk && bka != nk);
            assert(bka != tk / 2 && bka != fk / 2 && bka != nk / 2);
            assert(after.contains_key(bka));
            assert(after[bka] == m[bka]);
        }
        if a != from {
            assert(nka != tk && nka != fk && nka != nk);
            assert(nka != tk / 2 && nka != fk / 2 && nka != nk / 2);
            assert(after.contains_key(nka));
            assert(after[nka] == m[nka]);
        }
        assert forall|rel: u128| PUBKEY_1_IDX <= rel <= PUBKEY_3_IDX implies {
            let k = #[trigger] spec_pubkey_key(depth, a, rel);
            &&& m.contains_key(k) == after.contains_key(k)
            &&& m.contains_key(k) ==> after[k] == m[k]
        } by {
            assert(rel == 16 || rel == 17 || rel == 18);
            let k = spec_pubkey_key(depth, a, rel);
            assert(k >= 16 * j && k <= 16 * j + 2);
            assert(k > 8 * p + 2);
        }
    }
    assert forall|a: u128| a < pow2(depth) implies #[trigger] after.contains_key(
        spec_balance_key(depth, a),
    ) && after.contains_key(spec_nonce_key(depth, a)) by {
        assert(spec_list_node(depth, a) == spec_list_node(depth, a));
    }
    assert(spec_pubkeys_same(m, after, depth)) by {
        assert forall|a: u128, rel: u128|
            a < pow2(depth) && PUBKEY_1_IDX <= rel <= PUBKEY_3_IDX implies {
            let k = #[trigger] spec_pubkey_key(depth, a, rel);
            &&& m.contains_key(k) == after.contains_key(k)
            &&& m.contains_key(k) ==> after[k] == m[k]
        } by {
            assert(spec_list_node(depth, a) == spec_list_node(depth, a));
        }
    }
    let fb = spec_balance_of(m, depth);
    let gb = spec_balance_of(after, depth);
    assert forall|x: int| 0 <= x < p && x != to && x != from implies #[trigger] gb(x) == fb(x) by {
        assert(spec_list_node(depth, x as u128) == spec_list_node(depth, x as u128));
    }
    lemma_sum_two_changes(fb, gb, p, to as int, from as int, amount as int, -amount);
    let fnn = spec_nonce_of(m, depth);
    let gn = spec_nonce_of(after, depth);
    assert forall|x: int| 0 <= x < p && x != to && x != from implies #[trigger] gn(x) == fnn(x) by {
        assert(spec_list_node(depth, x as u128) == spec_list_node(depth, x as u128));
    }
    assert(gn(to as int) == fnn(to as int)) by {
        assert(spec_list_node(depth, to) == spec_list_node(depth, to));
    }
    lemma_sum_two_changes(fnn, gn, p, from as int, to as int, 1, 0);
}

/// Each of the first `n` transfers of the blob `b` is between two different
/// accounts among the `2^depth` of the list.
pub open spec fn spec_block_between_accounts(b: Seq<u8>, depth: nat, n: nat) -> bool {
    forall|i: int|
        0 <= i < n ==> spec_slot_to(b, i) < pow2(depth) && spec_slot_from(b, i) < pow2(depth)
            && #[trigger] spec_slot_to(b, i) != spec_slot_from(b, i)
}

/// A block whose transfers are all between different accounts of the list
/// (as `entry` runs them, from the chunks left by the pre-state root check)
/// keeps the total balance, raises the total of the nonces by the number of
/// transfers, keeps every account's chunks and leaves the public-key chunks
/// as they were.
pub proof fn lemma_block_keeps_totals(m: Map<u128, Seq<u8>>, depth: nat, b: Seq<u8>, n: nat)
    requires
        depth < 120,
        spec_accounts_present(m, depth),
        spec_block_between_accounts(b, depth, n),
        spec_run_block(m, depth, b, n) is Some,
    ensures
        ({
            let after = spec_run_block(m, depth, b, n)->Some_0;
            &&& spec_accounts_present(after, depth)
            &&& spec_total_balance(after, depth) == spec_total_balance(m, depth)
            &&& spec_total_nonce(after, depth) == spec_total_nonce(m, depth) + n
            &&& spec_pubkeys_same(m, after, depth)
        }),
    decreases n,
{
    if n == 0 {
        assert(spec_pubkeys_same(m, m, depth));
    } else {
        lemma_run_block_prefix(m, depth, b, (n - 1) as nat, n);
        lemma_block_keeps_totals(m, depth, b, (n - 1) as nat);
        let mid = spec_run_block(m, depth, b, (n - 1) as nat)->Some_0;
        let i = n - 1;
        assert(spec_slot_to(b, i) != spec_slot_from(b, i));
        lemma_transfer_keeps_totals(
            mid,
            depth,
            spec_slot_to(b, i),
            spec_slot_from(b, i),
            spec_slot_amount(b, i),
        );
        let after = spec_run_block(m, depth, b, n)->Some_0;
        assert(spec_pubkeys_same(m, after, depth)) by {
            assert forall|a: u128, rel: u128|
                a < pow2(depth) && PUBKEY_1_IDX <= rel <= PUBKEY_3_IDX implies {
                let k = #[trigger] spec_pubkey_key(depth, a, rel);
                &&& m.contains_key(k) == after.contains_key(k)
                &&& m.contains_key(k) ==> after[k] == m[k]
            } by {
                let k = spec_pubkey_key(depth, a, rel);
                assert(m.contains_key(k) == mid.contains_key(k));
                assert(mid.contains_key(k) == after.contains_key(k));
            }
        }
    }
}

/// A transfer between two different accounts of the list can be applied
/// whenever both balance chunks and the sender's nonce chunk are there, the
/// receiver's balance does not overflow, the sender's balance covers the
/// amount (covering it exactly is enough) and the nonce can still be
/// incremented; it then credits the receiver and debits the sender by the
/// amount and increments the sender's nonce.
pub proof fn lemma_covered_transfer_applies(
    m: Map<u128, Seq<u8>>,
    depth: nat,
    to: u128,
    from: u128,
    amount: u64,
)
    requires
        depth < 120,
        to < pow2(depth),
        from < pow2(depth),
        to != from,
        m.contains_key(spec_balance_key(depth, to)),
        m.contains_key(spec_balance_key(depth, from)),
        m.contains_key(spec_nonce_key(depth, from)),
        spec_chunk_u64(m[spec_balance_key(depth, to)]) + amount <= u64::MAX,
        spec_chunk_u64(m[spec_balance_key(depth, from)]) >= amount,
        spec_chunk_u64(m[spec_nonce_key(depth, from)]) < u64::MAX,
    ensures
        spec_transfer_ok(m, depth, to, from, amount),
        ({
            let after = spec_transfer(m, depth, to, from, amount);
            &&& spec_chunk_u64(after[spec_balance_key(depth, to)]) == spec_chunk_u64(
                m[spec_balance_key(depth, to)],
            ) + amount
            &&& spec_chunk_u64(after[spec_balance_key(depth, from)]) == spec_chunk_u64(
                m[spec_balance_key(depth, from)],
            ) - amount
            &&& spec_chunk_u64(after[spec_nonce_key(depth, from)]) == spec_chunk_u64(
                m[spec_nonce_key(depth, from)],
            ) + 1
        }),
{
    let p = pow2(depth);
    lemma_pow2_below_120(depth);
    let ti = spec_list_node(depth, to);
    let fi = spec_list_node(depth, from);
    lemma_small_subtree_indices(ti as nat);
    lemma_small_subtree_indices(fi as nat);
    assert(p + 1 <= ti <= 2 * p);
    assert(p + 1 <= fi <= 2 * p);
    let tk = spec_balance_key(depth, to);
    let fk = spec_balance_key(depth, from);
    let nk = spec_nonce_key(depth, from);
    assert(tk == 4 * ti + 1);
    assert(fk == 4 * fi + 1);
    assert(nk == 4 * fi + 2);
    let m2 = spec_balances_written(m, depth, to, from, amount);
    assert(m2.contains_key(nk) && m2[nk] == m[nk]);
    lemma_transfer_moves_amount(m, depth, to, from, amount);
}

/// The receiver, sender and amount of the `i`-th transfer of a block are
/// those of the transaction whose encoding fills its slot: the full 64-bit
/// amount.
pub proof fn lemma_slot_holds_transaction(b: Seq<u8>, i: int, tx: Transaction)
    requires
        0 <= i,
        4 + (i + 1) * 144 <= b.len(),
        spec_tx_slot(b, i) == spec_tx_bytes(tx),
    ensures
        spec_slot_to(b, i) == tx.to.0,
        spec_slot_from(b, i) == tx.from.0,
        spec_slot_amount(b, i) == tx.amount,
{
    lemma_tx_decode_encode(tx);
}

/// A block of one transfer, between two different accounts of the list,
/// moves the whole amount of the transaction encoded in it: the receiver's
/// balance rises by it, the sender's falls by it and the sender's nonce rises
/// by one.
pub proof fn lemma_block_moves_transaction_amount(
    m: Map<u128, Seq<u8>>,
    depth: nat,
    b: Seq<u8>,
    tx: Transaction,
)
    requires
        depth < 120,
        4 + 144 <= b.len(),
        spec_tx_slot(b, 0) == spec_tx_bytes(tx),
        tx.to.0 < pow2(depth),
        tx.from.0 < pow2(depth),
        tx.to != tx.from,
        spec_run_block(m, depth, b, 1) is Some,
    ensures
        ({
            let after = spec_run_block(m, depth, b, 1)->Some_0;
            &&& spec_chunk_u64(after[spec_balance_key(depth, tx.to.0)]) == spec_chunk_u64(
                m[spec_balance_key(depth, tx.to.0)],
            ) + tx.amount
            &&& spec_chunk_u64(after[spec_balance_key(depth, tx.from.0)]) == spec_chunk_u64(
                m[spec_balance_key(depth, tx.from.0)],
            ) - tx.amount
            &&& spec_chunk_u64(after[spec_nonce_key(depth, tx.from.0)]) == spec_chunk_u64(
                m[spec_nonce_key(depth, tx.from.0)],
            ) + 1
        }),
{
    lemma_slot_holds_transaction(b, 0, tx);
    lemma_pow2_below_120(depth);
    let p = pow2(depth);
    let ti = spec_list_node(depth, tx.to.0);
    let fi = spec_list_node(depth, tx.from.0);
    assert(p + 1 <= ti <= 2 * p);
    assert(p + 1 <= fi <= 2 * p);
    assert(spec_run_block(m, depth, b, 0) == Some(m));
    lemma_transfer_moves_amount(m, depth, tx.to.0, tx.from.0, tx.amount);
}

} // verus!
