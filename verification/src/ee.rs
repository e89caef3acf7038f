//! The execution environment: applies the transfers of a block to the
//! account state that the block's proof describes, and returns the new root.

use crate::account::{
    lemma_u64_chunk_roundtrip,
    spec_account_key, spec_chunk_u64, spec_has_chunk, spec_u64_chunk, RefAccount, BALANCE_IDX,
    NONCE_IDX,
};
use crate::blob::{spec_blob_wf, spec_proof_offset, spec_tx_count, spec_tx_slot, RawBlob};
use crate::error::{Error, OK};
use crate::number::{Number, U2};
use crate::reflist::{spec_list_node, spec_proof_map, spec_proof_wf, RefList};
use crate::store::{oof_root_outcome, spec_store_set};
use crate::tree_index::lemma_small_subtree_indices;
use crate::transaction::{spec_tx_decodes, Transaction};
use vstd::bytes::{spec_u128_from_le_bytes, spec_u64_from_le_bytes};
use vstd::prelude::*;

verus! {

/// The key of the balance chunk of the account at `addr` in a list of depth
/// `depth`.
pub open spec fn spec_balance_key(depth: nat, addr: u128) -> u128 {
    spec_account_key(spec_list_node(depth, addr) as u128, BALANCE_IDX) as u128
}

/// The key of the nonce chunk of the account at `addr` in a list of depth
/// `depth`.
pub open spec fn spec_nonce_key(depth: nat, addr: u128) -> u128 {
    spec_account_key(spec_list_node(depth, addr) as u128, NONCE_IDX) as u128
}

/// The chunks after the two balance writes of a transfer of `amount` from
/// `from` to `to`: the receiver's balance is written first, then the
/// sender's, each from the value read before either write.
pub open spec fn spec_balances_written(
    m: Map<u128, Seq<u8>>,
    depth: nat,
    to: u128,
    from: u128,
    amount: u64,
) -> Map<u128, Seq<u8>> {
    let tk = spec_balance_key(depth, to);
    let fk = spec_balance_key(depth, from);
    let to_balance = spec_chunk_u64(m[tk]);
    let from_balance = spec_chunk_u64(m[fk]);
    let m1 = spec_store_set(m, tk, spec_u64_chunk((to_balance + amount) as u64));
    spec_store_set(m1, fk, spec_u64_chunk((from_balance - amount) as u64))
}

/// A transfer of `amount` from `from` to `to` can be applied to the chunks
/// `m` of a list of depth `depth`: both accounts' nodes and chunks exist,
/// the receiver's balance does not overflow, the sender's balance covers the
/// amount, and the sender's nonce is there to be incremented.
pub open spec fn spec_transfer_ok(
    m: Map<u128, Seq<u8>>,
    depth: nat,
    to: u128,
    from: u128,
    amount: u64,
) -> bool {
    let ti = spec_list_node(depth, to);
    let fi = spec_list_node(depth, from);
    let m2 = spec_balances_written(m, depth, to, from, amount);
    &&& depth < 128
    &&& ti <= u128::MAX
    &&& fi <= u128::MAX
    &&& spec_has_chunk(m, ti as u128, BALANCE_IDX)
    &&& spec_has_chunk(m, fi as u128, BALANCE_IDX)
    &&& spec_chunk_u64(m[spec_balance_key(depth, to)]) + amount <= u64::MAX
    &&& spec_chunk_u64(m[spec_balance_key(depth, from)]) >= amount
    &&& spec_has_chunk(m2, fi as u128, NONCE_IDX)
    &&& spec_chunk_u64(m2[spec_nonce_key(depth, from)]) < u64::MAX
}

/// The chunks after a transfer of `amount` from `from` to `to`: the two
/// balances written, then the sender's nonce incremented.
pub open spec fn spec_transfer(
    m: Map<u128, Seq<u8>>,
    depth: nat,
    to: u128,
    from: u128,
    amount: u64,
) -> Map<u128, Seq<u8>> {
    let m2 = spec_balances_written(m, depth, to, from, amount);
    let nk = spec_nonce_key(depth, from);
    spec_store_set(m2, nk, spec_u64_chunk((spec_chunk_u64(m2[nk]) + 1) as u64))
}

/// Applies the transfer `tx` to the list: credits the receiver, debits the
/// sender and increments the sender's nonce.
pub fn process_tx<N: Number>(db: &mut RefList<RefAccount, N>, tx: &Transaction) -> (e: Error)
    requires
        spec_transfer_ok(old(db).entries(), N::spec_val(), tx.to.0, tx.from.0, tx.amount),
    ensures
        e == OK,
        final(db).entries() == spec_transfer(
            old(db).entries(),
            N::spec_val(),
            tx.to.0,
            tx.from.0,
            tx.amount,
        ),
        final(db).saved() == old(db).saved(),
{
    let _ = tx.verify();
    let mut to = db.get_mut(tx.to.0);
    let mut from = db.get_mut(tx.from.0);
    let to_balance = to.balance(db.backend());
    let from_balance = from.balance(db.backend());
    to.set_balance(db.backend_mut(), to_balance + tx.amount);
    from.set_balance(db.backend_mut(), from_balance - tx.amount);
    from.inc_nonce(db.backend_mut());
    OK
}

/// The receiver of the `i`-th transaction of the blob `b`.
pub open spec fn spec_slot_to(b: Seq<u8>, i: int) -> u128 {
    spec_u128_from_le_bytes(spec_tx_slot(b, i).subrange(0, 16))
}

/// The sender of the `i`-th transaction of the blob `b`.
pub open spec fn spec_slot_from(b: Seq<u8>, i: int) -> u128 {
    spec_u128_from_le_bytes(spec_tx_slot(b, i).subrange(16, 32))
}

/// The amount of the `i`-th transaction of the blob `b`.
pub open spec fn spec_slot_amount(b: Seq<u8>, i: int) -> u64 {
    spec_u64_from_le_bytes(spec_tx_slot(b, i).subrange(40, 48))
}

/// The chunks after the first `n` transfers of the blob `b` are applied in
/// turn to `m` in a list of depth `depth`, or `None` if one of them cannot be
/// applied.
pub open spec fn spec_run_block(m: Map<u128, Seq<u8>>, depth: nat, b: Seq<u8>, n: nat) -> Option<
    Map<u128, Seq<u8>>,
>
    decreases n,
{
    if n == 0 {
        Some(m)
    } else {
        match spec_run_block(m, depth, b, (n - 1) as nat) {
            Some(m1) => {
                let i = n - 1;
                if spec_transfer_ok(
                    m1,
                    depth,
                    spec_slot_to(b, i),
                    spec_slot_from(b, i),
                    spec_slot_amount(b, i),
                ) {
                    Some(
                        spec_transfer(
                            m1,
                            depth,
                            spec_slot_to(b, i),
                            spec_slot_from(b, i),
                            spec_slot_amount(b, i),
                        ),
                    )
                } else {
                    None
                }
            },
            None => None,
        }
    }
}

/// The encoded proof of the blob `b`: what follows its transactions.
pub open spec fn spec_block_proof(b: Seq<u8>) -> Seq<u8> {
    b.subrange(spec_proof_offset(b) as int, b.len() as int)
}

/// The chunks after a block: the proof's chunks, with their parents hashed
/// up by the root check, then every transfer of the block applied in a list
/// of depth 2; `None` if the blob is malformed or a transfer cannot be
/// applied.
pub open spec fn spec_block_state(b: Seq<u8>) -> Option<Map<u128, Seq<u8>>> {
    if spec_blob_wf(b) && spec_proof_wf(spec_block_proof(b)) {
        let m0 = spec_proof_map(spec_block_proof(b));
        let m1 = oof_root_outcome(m0).0;
        spec_run_block(m1, 2, b, spec_tx_count(b))
    } else {
        None
    }
}

/// The state root after the block `b`, or `None` where the block cannot be
/// processed or the root cannot be computed.
pub open spec fn spec_post_root(b: Seq<u8>) -> Option<Seq<u8>> {
    match spec_block_state(b) {
        Some(m) => match oof_root_outcome(m).1 {
            Ok(r) => Some(r),
            Err(_) => None,
        },
        None => None,
    }
}

/// The root of the proof that the blob `b` carries, as computed before any
/// transfer is applied.
pub open spec fn spec_pre_root(b: Seq<u8>) -> Result<Seq<u8>, u128> {
    oof_root_outcome(spec_proof_map(spec_block_proof(b))).1
}

/// If the first `n` transfers can be applied, so can the first `k <= n`.
pub proof fn lemma_run_block_prefix(m: Map<u128, Seq<u8>>, depth: nat, b: Seq<u8>, k: nat, n: nat)
    requires
        k <= n,
        spec_run_block(m, depth, b, n) is Some,
    ensures
        spec_run_block(m, depth, b, k) is Some,
    decreases n,
{
    if k < n {
        lemma_run_block_prefix(m, depth, b, k, (n - 1) as nat);
    }
}

/// If one of the first `k` transfers cannot be applied, the block fails.
pub proof fn lemma_run_block_fails(m: Map<u128, Seq<u8>>, depth: nat, b: Seq<u8>, k: nat, n: nat)
    requires
        k <= n,
        spec_run_block(m, depth, b, k) is None,
    ensures
        spec_run_block(m, depth, b, n) is None,
{
    if spec_run_block(m, depth, b, n) is Some {
        lemma_run_block_prefix(m, depth, b, k, n);
    }
}

/// Processes a block: checks the pre-state root (the outcome of the check is
/// not acted on), applies each transfer (rolling back one that reports an
/// error) and returns the post-state root.
pub fn entry(blob: &[u8], pre: &[u8; 32]) -> (root: [u8; 32])
    requires
        spec_post_root(blob@) is Some,
    ensures
        root@ == spec_post_root(blob@)->Some_0,
        spec_tx_count(blob@) == 0 && spec_pre_root(blob@) is Ok ==> root@ == spec_pre_root(
            blob@,
        )->Ok_0,
{
    let ghost b = blob@;
    let mut blob = RawBlob::new(blob);
    let proof = blob.raw_proof();
    let mut db = RefList::<RefAccount, U2>::from_raw(proof);
    let _ = db.verify(pre);
    let ghost count = spec_tx_count(b);
    assert(blob@ =~= b.subrange(0, spec_proof_offset(b) as int));
    assert(spec_tx_count(blob@) == count) by {
        assert(blob@.subrange(0, 4) =~= b.subrange(0, 4));
    }
    let txs = blob.transactions();
    let ghost m1 = db.entries();
    let mut i: usize = 0;
    while i < txs.len()
        invariant
            txs@.len() == count,
            count == spec_tx_count(b),
            blob@ == b.subrange(0, spec_proof_offset(b) as int),
            spec_blob_wf(b),
            forall|j: int|
                0 <= j < txs@.len() ==> spec_tx_decodes(#[trigger] txs@[j], spec_tx_slot(blob@, j)),
            spec_run_block(m1, 2, b, count) is Some,
            i <= count,
            spec_run_block(m1, 2, b, i as nat) == Some(db.entries()),
        decreases txs@.len() - i,
    {
        let tx = txs[i];
        proof {
            lemma_run_block_prefix(m1, 2, b, (i + 1) as nat, count);
            assert(4 + (i + 1) * 144 <= 4 + count * 144) by (nonlinear_arith)
                requires
                    i < count,
            ;
            assert(spec_proof_offset(b) == 4 + count * 144);
            assert(spec_tx_slot(blob@, i as int) =~= spec_tx_slot(b, i as int));
        }
        db.begin();
        let e = process_tx(&mut db, &tx);
        if e != OK {
            db.rollback();
        }
        i += 1;
    }
    match db.root() {
        Ok(r) => r,
        Err(_) => {
            assert(false);
            [0u8; 32]
        },
    }
}

/// Applies the transfer of `amount` from `from` to `to` to a list of depth 2
/// where it can be applied, and tells whether it could.
fn try_transfer(db: &mut RefList<RefAccount, U2>, to: u128, from: u128, amount: u64) -> (ok: bool)
    ensures
        ok == spec_transfer_ok(old(db).entries(), 2, to, from, amount),
        ok ==> final(db).entries() == spec_transfer(old(db).entries(), 2, to, from, amount),
{
    let ghost m = db.entries();
    proof {
        reveal_with_fuel(crate::tree_index::pow2, 3);
        assert(spec_list_node(2, to) == to + 5);
        assert(spec_list_node(2, from) == from + 5);
    }
    if to > u128::MAX - 5 || from > u128::MAX - 5 {
        return false;
    }
    let ti = to + 5;
    let fi = from + 5;
    if ti > u128::MAX / 5 || fi > u128::MAX / 5 {
        proof {
            if ti > u128::MAX / 5 {
                assert(ti * 5 > u128::MAX) by (nonlinear_arith)
                    requires
                        ti > u128::MAX / 5,
                ;
            } else {
                assert(fi * 5 > u128::MAX) by (nonlinear_arith)
                    requires
                        fi > u128::MAX / 5,
                ;
            }
        }
        return false;
    }
    assert(ti * 5 <= u128::MAX) by (nonlinear_arith)
        requires
            ti <= u128::MAX / 5,
    ;
    assert(fi * 5 <= u128::MAX) by (nonlinear_arith)
        requires
            fi <= u128::MAX / 5,
    ;
    let tk = crate::tree_index::subtree_index_to_general(ti, BALANCE_IDX);
    let fk = crate::tree_index::subtree_index_to_general(fi, BALANCE_IDX);
    let to_balance = match crate::store::store_get(db.backend(), tk) {
        Some(c) => vstd::bytes::u64_from_le_bytes(&c[0..8]),
        None => {
            return false;
        },
    };
    let from_balance = match crate::store::store_get(db.backend(), fk) {
        Some(c) => vstd::bytes::u64_from_le_bytes(&c[0..8]),
        None => {
            return false;
        },
    };
    if to_balance > u64::MAX - amount || from_balance < amount {
        return false;
    }
    let mut to_acc = db.get_mut(to);
    let mut from_acc = db.get_mut(from);
    to_acc.set_balance(db.backend_mut(), to_balance + amount);
    from_acc.set_balance(db.backend_mut(), from_balance - amount);
    assert(db.entries() == spec_balances_written(m, 2, to, from, amount));
    if fi > u128::MAX / 6 {
        assert(fi * 6 > u128::MAX) by (nonlinear_arith)
            requires
                fi > u128::MAX / 6,
        ;
        return false;
    }
    assert(fi * 6 <= u128::MAX) by (nonlinear_arith)
        requires
            fi <= u128::MAX / 6,
    ;
    let nk = crate::tree_index::subtree_index_to_general(fi, NONCE_IDX);
    let nonce = match crate::store::store_get(db.backend(), nk) {
        Some(c) => vstd::bytes::u64_from_le_bytes(&c[0..8]),
        None => {
            return false;
        },
    };
    if nonce == u64::MAX {
        return false;
    }
    from_acc.inc_nonce(db.backend_mut());
    true
}

/// Processes a block where it can be processed: returns the post-state root
/// that `entry` gives, or `None` where the blob is malformed, a transfer
/// cannot be applied or the root cannot be computed.
pub fn try_entry(blob: &[u8], pre: &[u8; 32]) -> (r: Option<[u8; 32]>)
    ensures
        match r {
            Some(v) => spec_post_root(blob@) == Some(v@),
            None => spec_post_root(blob@) is None,
        },
        spec_blob_wf(blob@) && spec_proof_wf(spec_block_proof(blob@)) && spec_tx_count(blob@) == 0
            && spec_pre_root(blob@) is Ok ==> r is Some && r->Some_0@ == spec_pre_root(blob@)->Ok_0,
{
    let ghost b = blob@;
    let len = blob.len();
    if len < 4 {
        return None;
    }
    let count = vstd::bytes::u32_from_le_bytes(&blob[0..4]) as usize;
    if count > (len - 4) / 144 {
        assert(4 + count * 144 > len) by (nonlinear_arith)
            requires
                count > (len - 4) / 144,
                len >= 4,
        ;
        return None;
    }
    assert(4 + count * 144 <= len) by (nonlinear_arith)
        requires
            count <= (len - 4) / 144,
            len >= 4,
    ;
    let offset = 4 + count * 144;
    let proof = &blob[offset..len];
    assert(proof@ == spec_block_proof(b));
    let plen = proof.len();
    if plen < 4 {
        return None;
    }
    let pc = vstd::bytes::u32_from_le_bytes(&proof[0..4]) as usize;
    if pc > (plen - 4) / 48 {
        assert(4 + 48 * pc > plen) by (nonlinear_arith)
            requires
                pc > (plen - 4) / 48,
                plen >= 4,
        ;
        return None;
    }
    assert(4 + 48 * pc <= plen) by (nonlinear_arith)
        requires
            pc <= (plen - 4) / 48,
            plen >= 4,
    ;
    let mut db = RefList::<RefAccount, U2>::from_raw(proof);
    let _ = db.verify(pre);
    let ghost m1 = db.entries();
    let mut i: usize = 0;
    while i < count
        invariant
            b == blob@,
            len == b.len(),
            count == spec_tx_count(b),
            4 + count * 144 <= len,
            spec_blob_wf(b),
            spec_proof_wf(spec_block_proof(b)),
            m1 == oof_root_outcome(spec_proof_map(spec_block_proof(b))).0,
            i <= count,
            spec_run_block(m1, 2, b, i as nat) == Some(db.entries()),
        decreases count - i,
    {
        assert(4 + (i + 1) * 144 <= 4 + count * 144) by (nonlinear_arith)
            requires
                i < count,
        ;
        assert(4 + (i + 1) * 144 == 4 + i * 144 + 144) by (nonlinear_arith);
        let start = 4 + i * 144;
        let tx = Transaction::from_bytes(&blob[start..start + 144]);
        assert(blob@.subrange(start as int, start + 144) == spec_tx_slot(b, i as int));
        if !try_transfer(&mut db, tx.to.0, tx.from.0, tx.amount) {
            proof {
                lemma_run_block_fails(m1, 2, b, (i + 1) as nat, count as nat);
            }
            return None;
        }
        i += 1;
    }
    match db.root() {
        Ok(_) => Some(entry(blob, pre)),
        Err(_) => None,
    }
}

/// A transfer between two different accounts (the sender's node not being
/// the left child of the receiver's) credits the receiver and debits the
/// sender by the amount, so that their total balance is kept, and increments
/// the sender's nonce.
pub proof fn lemma_transfer_moves_amount(
    m: Map<u128, Seq<u8>>,
    depth: nat,
    to: u128,
    from: u128,
    amount: u64,
)
    requires
        spec_transfer_ok(m, depth, to, from, amount),
        to != from,
        spec_list_node(depth, from) != 2 * spec_list_node(depth, to),
    ensures
        ({
            let after = spec_transfer(m, depth, to, from, amount);
            let tk = spec_balance_key(depth, to);
            let fk = spec_balance_key(depth, from);
            let nk = spec_nonce_key(depth, from);
            &&& after.contains_key(tk)
            &&& after.contains_key(fk)
            &&& after.contains_key(nk)
            &&& m.contains_key(nk)
            &&& spec_chunk_u64(after[tk]) == spec_chunk_u64(m[tk]) + amount
            &&& spec_chunk_u64(after[fk]) == spec_chunk_u64(m[fk]) - amount
            &&& spec_chunk_u64(after[tk]) + spec_chunk_u64(after[fk]) == spec_chunk_u64(m[tk])
                + spec_chunk_u64(m[fk])
            &&& spec_chunk_u64(after[nk]) == spec_chunk_u64(m[nk]) + 1
        }),
{
    let ti = spec_list_node(depth, to);
    let fi = spec_list_node(depth, from);
    lemma_small_subtree_indices(ti as nat);
    lemma_small_subtree_indices(fi as nat);
    let tk = spec_balance_key(depth, to);
    let fk = spec_balance_key(depth, from);
    let nk = spec_nonce_key(depth, from);
    let to_balance = spec_chunk_u64(m[tk]);
    let from_balance = spec_chunk_u64(m[fk]);
    lemma_u64_chunk_roundtrip((to_balance + amount) as u64);
    lemma_u64_chunk_roundtrip((from_balance - amount) as u64);
    let m2 = spec_balances_written(m, depth, to, from, amount);
    lemma_u64_chunk_roundtrip((spec_chunk_u64(m2[nk]) + 1) as u64);
}

/// A transfer from an account to itself debits it by the amount (the
/// sender's write comes last) and increments its nonce.
pub proof fn lemma_self_transfer_debits(m: Map<u128, Seq<u8>>, depth: nat, addr: u128, amount: u64)
    requires
        spec_transfer_ok(m, depth, addr, addr, amount),
    ensures
        ({
            let after = spec_transfer(m, depth, addr, addr, amount);
            let bk = spec_balance_key(depth, addr);
            let nk = spec_nonce_key(depth, addr);
            &&& after.contains_key(bk)
            &&& after.contains_key(nk)
            &&& m.contains_key(nk)
            &&& spec_chunk_u64(after[bk]) == spec_chunk_u64(m[bk]) - amount
            &&& spec_chunk_u64(after[nk]) == spec_chunk_u64(m[nk]) + 1
        }),
{
    let i = spec_list_node(depth, addr);
    lemma_small_subtree_indices(i as nat);
    let bk = spec_balance_key(depth, addr);
    let nk = spec_nonce_key(depth, addr);
    let balance = spec_chunk_u64(m[bk]);
    lemma_u64_chunk_roundtrip((balance + amount) as u64);
    lemma_u64_chunk_roundtrip((balance - amount) as u64);
    let m2 = spec_balances_written(m, depth, addr, addr, amount);
    lemma_u64_chunk_roundtrip((spec_chunk_u64(m2[nk]) + 1) as u64);
}

} // verus!
