//! Tools that build the inputs of a block: encoded transfers and account
//! states.

use crate::account::Account;
use crate::address::Address;
use crate::codec::bytes_to_vec;
use crate::crypto::PublicKey;
use crate::list::List;
use crate::number::{depth_u32, Number};
use crate::transaction::{spec_tx_bytes, Transaction, SIGNATURE_LEN};
use crate::tree_index::{lemma_pow2_below_128, lemma_pow2_monotone, pow2};
use vstd::prelude::*;

verus! {

/// The encoded transfer of `amount` from `from` to `to`, with the given
/// nonce and an all-zero signature.
pub fn transfer(to: Address, from: Address, amount: u64, nonce: u64) -> (b: Vec<u8>)
    ensures
        b@ == spec_tx_bytes(
            Transaction { to, from, nonce, amount, signature: [0u8; SIGNATURE_LEN] },
        ),
{
    let tx = Transaction { to, from, amount, nonce, signature: [0u8; SIGNATURE_LEN] };
    let b = tx.to_bytes();
    bytes_to_vec(&b)
}

/// `2` to the power `exp`, which must be below 128.
fn two_to_the(exp: u32) -> (r: u128)
    requires
        exp < 128,
    ensures
        r == pow2(exp as nat),
{
    proof {
        lemma_pow2_below_128(exp as nat);
    }
    let mut r: u128 = 1;
    let mut i: u32 = 0;
    while i < exp
        invariant
            i <= exp < 128,
            r == pow2(i as nat),
            pow2(exp as nat) <= u128::MAX,
        decreases exp - i,
    {
        proof {
            lemma_pow2_monotone((i + 1) as nat, exp as nat);
        }
        r = r * 2;
        i = i + 1;
    }
    r
}

/// The address of the account `a` among `2^depth` addresses.
pub open spec fn spec_account_address(a: Account, depth: nat) -> u128 {
    PublicKey::spec_address(a.pubkey.0@, pow2(depth) as u128)
}

/// The accounts of `accounts` by address, among `2^depth` addresses, a later
/// account overriding an earlier one at the same address.
pub open spec fn spec_accounts_by_address(accounts: Seq<Account>, depth: nat) -> Map<u128, Account>
    decreases accounts.len(),
{
    if accounts.len() == 0 {
        Map::empty()
    } else {
        spec_accounts_by_address(accounts.drop_last(), depth).insert(
            spec_account_address(accounts.last(), depth),
            accounts.last(),
        )
    }
}

/// The list of the accounts, each at the address its public key maps to
/// among the `2^N` leaves.
pub fn state_with_accounts<N: Number>(accounts: Vec<Account>) -> (list: List<Account, N>)
    requires
        N::spec_val() < 128,
        forall|i: int|
            0 <= i < accounts@.len() ==> spec_account_address(#[trigger] accounts@[i], N::spec_val())
                < pow2(N::spec_val()),
    ensures
        list@ == spec_accounts_by_address(accounts@, N::spec_val()),
{
    proof {
        lemma_pow2_below_128(N::spec_val());
        lemma_pow2_monotone(0, N::spec_val());
    }
    let mut list = List::new();
    let size = two_to_the(depth_u32::<N>());
    let mut i: usize = 0;
    while i < accounts.len()
        invariant
            N::spec_val() < 128,
            size == pow2(N::spec_val()),
            size > 0,
            i <= accounts@.len(),
            forall|j: int|
                0 <= j < accounts@.len() ==> spec_account_address(
                    #[trigger] accounts@[j],
                    N::spec_val(),
                ) < pow2(N::spec_val()),
            list@ == spec_accounts_by_address(accounts@.take(i as int), N::spec_val()),
        decreases accounts@.len() - i,
    {
        let account = accounts[i];
        let addr = account.pubkey.to_address(size);
        assert(addr.0 == spec_account_address(accounts@[i as int], N::spec_val()));
        let _ = list.insert(addr.0, account);
        assert(accounts@.take(i + 1).drop_last() =~= accounts@.take(i as int));
        i += 1;
    }
    assert(accounts@.take(accounts@.len() as int) =~= accounts@);
    list
}

/// Every account of `accounts` is in the state, at its address, unless a
/// later account has the same address.
pub proof fn lemma_every_account_placed(accounts: Seq<Account>, depth: nat, i: int)
    requires
        0 <= i < accounts.len(),
        forall|j: int|
            i < j < accounts.len() ==> spec_account_address(#[trigger] accounts[j], depth)
                != spec_account_address(accounts[i], depth),
    ensures
        spec_accounts_by_address(accounts, depth).contains_key(
            spec_account_address(accounts[i], depth),
        ),
        spec_accounts_by_address(accounts, depth)[spec_account_address(accounts[i], depth)]
            == accounts[i],
    decreases accounts.len(),
{
    let n = accounts.len();
    if i < n - 1 {
        let init = accounts.drop_last();
        assert forall|j: int| i < j < init.len() implies spec_account_address(#[trigger] init[j], depth)
            != spec_account_address(init[i], depth) by {
            assert(init[j] == accounts[j]);
        }
        lemma_every_account_placed(init, depth, i);
        assert(init[i] == accounts[i]);
        assert(spec_account_address(accounts[n - 1], depth) != spec_account_address(
            accounts[i],
            depth,
        ));
    }
}

/// The state holds an address exactly when some account maps to it.
pub proof fn lemma_state_addresses(accounts: Seq<Account>, depth: nat, x: u128)
    ensures
        spec_accounts_by_address(accounts, depth).contains_key(x) <==> exists|j: int|
            0 <= j < accounts.len() && spec_account_address(#[trigger] accounts[j], depth) == x,
    decreases accounts.len(),
{
    if accounts.len() > 0 {
        let init = accounts.drop_last();
        lemma_state_addresses(init, depth, x);
        if exists|j: int| 0 <= j < init.len() && spec_account_address(#[trigger] init[j], depth) == x {
            let j = choose|j: int| 0 <= j < init.len() && spec_account_address(#[trigger] init[j], depth) == x;
            assert(accounts[j] == init[j]);
        }
        if exists|j: int|
            0 <= j < accounts.len() && spec_account_address(#[trigger] accounts[j], depth) == x {
            let j = choose|j: int|
                0 <= j < accounts.len() && spec_account_address(#[trigger] accounts[j], depth) == x;
            if j < accounts.len() - 1 {
                assert(init[j] == accounts[j]);
            }
        }
    }
}

} // verus!
