use oof::Oof;
use see::account::{Account, RefAccount};
use see::address::Address;
use see::crypto::PublicKey;
use see::ee::{entry, process_tx, try_entry};
use see::error::{ERR, OK};
use see::generate::{state_with_accounts, transfer};
use see::number::U2;
use see::reflist::{ProofError, RefList, RefNode};
use see::transaction::Transaction;
use std::convert::TryInto;

fn key_with_tail(tail: u128) -> [u8; 65] {
    let mut pk = vec![0; 49];
    pk.extend(&tail.to_le_bytes());
    pk.as_slice().try_into().unwrap()
}

fn accounts() -> (Account, Account) {
    let zero = Account {
        balance: 100,
        nonce: 1,
        pubkey: PublicKey::new(key_with_tail((std::u128::MAX >> 1) - 2)),
    };
    let one = Account {
        balance: 42,
        nonce: 2,
        pubkey: PublicKey::new(key_with_tail((std::u128::MAX >> 1) + 1)),
    };
    (zero, one)
}

fn block(txs: &[Vec<u8>], proof: &Oof) -> Vec<u8> {
    let mut input = (txs.len() as u32).to_le_bytes().to_vec();
    for tx in txs {
        input.extend(tx);
    }
    input.extend(proof.to_bytes());
    input
}

fn root_of(accounts: Vec<Account>) -> [u8; 32] {
    *state_with_accounts::<U2>(accounts).to_proof().root().unwrap()
}

#[test]
fn ee_tests_test() {
    let (mut zero, mut one) = accounts();

    let initial_state = state_with_accounts::<U2>(vec![zero.clone(), one.clone()]);
    let mut initial_state_proof = initial_state.to_proof();
    let initial_state_root = *initial_state_proof.root().unwrap();

    // generate tx
    let tx = transfer(Address::zero(), Address::one(), 1, 3);

    // execute tx
    let input = block(&[tx], &initial_state.to_proof());
    let post_state_root = entry(&input, &initial_state_root);

    // calculate expected root
    zero.balance += 1;
    one.balance -= 1;
    one.nonce += 1;

    let expected_state_root = *state_with_accounts::<U2>(vec![zero.clone(), one.clone()])
        .to_proof()
        .root()
        .unwrap();

    assert_eq!(post_state_root, expected_state_root);
}

#[test]
fn try_entry_agrees_with_entry() {
    let (zero, one) = accounts();
    let state = state_with_accounts::<U2>(vec![zero, one]);
    let pre = *state.to_proof().root().unwrap();
    let input = block(&[transfer(Address(0), Address(1), 5, 0)], &state.to_proof());
    assert_eq!(try_entry(&input, &pre), Some(entry(&input, &pre)));
}

#[test]
fn several_transfers_in_a_block() {
    let (mut zero, mut one) = accounts();
    let state = state_with_accounts::<U2>(vec![zero, one]);
    let pre = *state.to_proof().root().unwrap();
    let txs = vec![
        transfer(Address(0), Address(1), 10, 0),
        transfer(Address(1), Address(0), 30, 0),
    ];
    let post = entry(&block(&txs, &state.to_proof()), &pre);
    zero.balance = 100 + 10 - 30;
    zero.nonce += 1;
    one.balance = 42 - 10 + 30;
    one.nonce += 1;
    assert_eq!(post, root_of(vec![zero, one]));
}

#[test]
fn empty_block_keeps_the_root() {
    let (zero, one) = accounts();
    let state = state_with_accounts::<U2>(vec![zero, one]);
    let pre = *state.to_proof().root().unwrap();
    assert_eq!(entry(&block(&[], &state.to_proof()), &pre), pre);
    // the pre-state root that the block claims is not acted on
    assert_eq!(entry(&block(&[], &state.to_proof()), &[7u8; 32]), pre);
}

#[test]
fn try_entry_refuses_what_entry_cannot_process() {
    let (zero, one) = accounts();
    let state = state_with_accounts::<U2>(vec![zero, one]);
    let pre = *state.to_proof().root().unwrap();
    // shorter than its count
    assert_eq!(try_entry(&[1, 2], &pre), None);
    // announces a transaction that is not there
    let mut short = 1u32.to_le_bytes().to_vec();
    short.extend(vec![0u8; 10]);
    assert_eq!(try_entry(&short, &pre), None);
    // the sender cannot cover the amount
    let overdraft = block(&[transfer(Address(0), Address(1), 43, 0)], &state.to_proof());
    assert_eq!(try_entry(&overdraft, &pre), None);
    // the receiver's account is not in the proof
    let missing = block(&[transfer(Address(1000), Address(1), 1, 0)], &state.to_proof());
    assert_eq!(try_entry(&missing, &pre), None);
    // the proof announces more chunks than it holds
    let mut truncated = 0u32.to_le_bytes().to_vec();
    truncated.extend(5u32.to_le_bytes().to_vec());
    assert_eq!(try_entry(&truncated, &pre), None);
}

#[test]
fn process_tx_moves_the_amount() {
    let (zero, one) = accounts();
    let state = state_with_accounts::<U2>(vec![zero, one]);
    let bytes = state.to_proof().to_bytes();
    let mut db = RefList::<RefAccount, U2>::from_raw(&bytes);
    let tx = Transaction::from_bytes(&transfer(Address(0), Address(1), 40, 0));
    assert_eq!(process_tx(&mut db, &tx), OK);
    let to = RefAccount::new(5);
    let from = RefAccount::new(6);
    assert_eq!(to.balance(db.backend()), 140);
    assert_eq!(from.balance(db.backend()), 2);
    assert_eq!(from.nonce(db.backend()), 3);
    assert_eq!(to.nonce(db.backend()), 1);
}

#[test]
fn rollback_restores_the_begun_state() {
    let (zero, one) = accounts();
    let state = state_with_accounts::<U2>(vec![zero, one]);
    let bytes = state.to_proof().to_bytes();
    let mut db = RefList::<RefAccount, U2>::from_raw(&bytes);
    let before = db.root().unwrap();
    db.begin();
    let tx = Transaction::from_bytes(&transfer(Address(0), Address(1), 1, 0));
    process_tx(&mut db, &tx);
    assert_ne!(db.root().unwrap(), before);
    db.rollback();
    assert_eq!(db.root().unwrap(), before);
    assert_eq!(RefAccount::new(5).balance(db.backend()), 100);
}

#[test]
fn verify_checks_the_root() {
    let (zero, one) = accounts();
    let state = state_with_accounts::<U2>(vec![zero, one]);
    let root = *state.to_proof().root().unwrap();
    let bytes = state.to_proof().to_bytes();
    let mut db = RefList::<RefAccount, U2>::from_raw(&bytes);
    assert_eq!(db.verify(&root), OK);
    assert_eq!(db.verify(&[0u8; 32]), ERR);
}

#[test]
fn root_reports_a_missing_node() {
    // a proof with a single chunk at index 2: its sibling 3 is missing
    let mut bytes = 1u32.to_le_bytes().to_vec();
    bytes.extend(2u128.to_le_bytes().to_vec());
    bytes.extend(vec![0u8; 32]);
    let mut db = RefList::<RefAccount, U2>::from_raw(&bytes);
    assert_eq!(db.root(), Err(ProofError::EntryNotFound(3)));
}

#[test]
fn get_mut_addresses_the_leaf_after_the_index() {
    let bytes = 0u32.to_le_bytes().to_vec();
    let mut db = RefList::<RefAccount, U2>::from_raw(&bytes);
    let acc = db.get_mut(0);
    // the account at address 0 is the node 2^2 + 0 + 1
    let mut oof = Oof::new(&[21], &[[9u8; 32]]);
    assert_eq!(acc.balance(&oof), u64::from_le_bytes([9u8; 8]));
    let _ = &mut oof;
}

fn chunk(x: u64) -> [u8; 32] {
    let mut c = [0u8; 32];
    c[0..8].copy_from_slice(&x.to_le_bytes());
    c
}

fn proof_bytes(keys: &[u128], values: &[[u8; 32]]) -> Vec<u8> {
    let mut bytes = (keys.len() as u32).to_le_bytes().to_vec();
    for k in keys {
        bytes.extend(k.to_le_bytes().to_vec());
    }
    for v in values {
        bytes.extend(v.to_vec());
    }
    bytes
}

#[test]
fn sender_below_receiver_loses_receivers_balance_chunk() {
    // receiver at address 0 is node 5 (balance at 21); sender at address 5
    // is node 10 (balance at 41, nonce at 42), and 42 / 2 == 21
    let bytes = proof_bytes(&[21, 41, 42], &[chunk(7), chunk(50), chunk(0)]);
    let mut db = RefList::<RefAccount, U2>::from_raw(&bytes);
    let tx = Transaction::from_bytes(&transfer(Address(0), Address(5), 20, 0));
    assert_eq!(process_tx(&mut db, &tx), OK);
    assert_eq!(db.backend().get(&21), None);
    assert_eq!(RefAccount::new(10).balance(db.backend()), 30);
    assert_eq!(RefAccount::new(10).nonce(db.backend()), 1);
}

#[test]
fn transfer_to_oneself_only_debits() {
    let bytes = proof_bytes(&[21, 22], &[chunk(100), chunk(4)]);
    let mut db = RefList::<RefAccount, U2>::from_raw(&bytes);
    let tx = Transaction::from_bytes(&transfer(Address(0), Address(0), 30, 0));
    assert_eq!(process_tx(&mut db, &tx), OK);
    assert_eq!(RefAccount::new(5).balance(db.backend()), 70);
    assert_eq!(RefAccount::new(5).nonce(db.backend()), 5);
}

#[test]
fn later_duplicate_key_in_a_proof_wins() {
    let bytes = proof_bytes(&[21, 21], &[chunk(1), chunk(2)]);
    let db = RefList::<RefAccount, U2>::from_raw(&bytes);
    assert_eq!(RefAccount::new(5).balance(db.backend()), 2);
}

#[test]
fn a_second_root_gives_the_same_root() {
    let (zero, one) = accounts();
    let state = state_with_accounts::<U2>(vec![zero, one]);
    let bytes = state.to_proof().to_bytes();
    let mut db = RefList::<RefAccount, U2>::from_raw(&bytes);
    let first = db.root().unwrap();
    assert_eq!(db.root().unwrap(), first);
    // the account leaves are still there after the root was computed
    assert_eq!(RefAccount::new(5).balance(db.backend()), 100);
    assert_eq!(RefAccount::new(6).nonce(db.backend()), 2);
}

#[test]
fn block_keeps_total_balance_and_counts_nonces() {
    let (zero, one) = accounts();
    let state = state_with_accounts::<U2>(vec![zero, one]);
    let bytes = state.to_proof().to_bytes();
    let mut db = RefList::<RefAccount, U2>::from_raw(&bytes);
    let totals = |db: &RefList<RefAccount, U2>| {
        let a = RefAccount::new(5);
        let b = RefAccount::new(6);
        (
            a.balance(db.backend()) + b.balance(db.backend()),
            a.nonce(db.backend()) + b.nonce(db.backend()),
        )
    };
    let (balances, nonces) = totals(&db);
    for (to, from, amount) in [(0u128, 1u128, 10u64), (1, 0, 30), (0, 1, 5)] {
        let tx = Transaction::from_bytes(&transfer(Address(to), Address(from), amount, 0));
        assert_eq!(process_tx(&mut db, &tx), OK);
    }
    assert_eq!(totals(&db), (balances, nonces + 3));
}
