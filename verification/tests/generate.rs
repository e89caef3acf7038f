use oof::hash::hash;
use see::account::{make_value, Account};
use see::crypto::PublicKey;
use see::generate::state_with_accounts;
use see::list::List;
use see::number::U2;
use std::convert::TryInto;

fn a32(s: &[u8]) -> [u8; 32] {
    s.try_into().unwrap()
}

fn key_with_tail(tail: u128) -> [u8; 65] {
    let mut pk = vec![0; 49];
    pk.extend(&tail.to_le_bytes());
    pk.as_slice().try_into().unwrap()
}

#[test]
fn generate_test() {
    let one = Account {
        balance: 100,
        nonce: 1,
        pubkey: PublicKey::new(key_with_tail((std::u128::MAX >> 1) - 2)),
    };

    let two = Account {
        balance: 42,
        nonce: 2,
        pubkey: PublicKey::new(key_with_tail((std::u128::MAX >> 1) + 1)),
    };

    let state = state_with_accounts::<U2>(vec![one.clone(), two.clone()]);

    let forty = hash(
        &a32(&one.pubkey.as_bytes()[0..32]),
        &a32(&one.pubkey.as_bytes()[32..64]),
    );
    let forty_one = hash(&make_value(&one.pubkey.as_bytes()[64..65]), &[0; 32]);
    let twenty = hash(&forty, &forty_one);
    let ten = hash(&twenty, &make_value(&one.balance.to_le_bytes()));
    let eleven = hash(&make_value(&one.nonce.to_le_bytes()), &[0; 32]);
    let five = hash(&ten, &eleven);

    let forty_eight = hash(
        &a32(&two.pubkey.as_bytes()[0..32]),
        &a32(&two.pubkey.as_bytes()[32..64]),
    );
    let forty_nine = hash(&make_value(&two.pubkey.as_bytes()[64..65]), &[0; 32]);
    let twenty_four = hash(&forty_eight, &forty_nine);
    let twelve = hash(&twenty_four, &make_value(&two.balance.to_le_bytes()));
    let thirteen = hash(&make_value(&two.nonce.to_le_bytes()), &[0; 32]);
    let six = hash(&twelve, &thirteen);

    let two = hash(&[0; 32], &five);
    let three = hash(&six, &[0; 32]);
    let one = hash(&two, &three);

    assert_eq!(state.to_proof().root(), Ok(&one));
}

#[test]
fn accounts_are_placed_at_their_addresses() {
    let a = Account { balance: 1, nonce: 0, pubkey: PublicKey::new(key_with_tail(0)) };
    let b = Account { balance: 2, nonce: 0, pubkey: PublicKey::new(key_with_tail(u128::MAX - 10)) };
    let c = Account { balance: 3, nonce: 0, pubkey: PublicKey::new(key_with_tail(5)) };
    let state = state_with_accounts::<U2>(vec![a, b, c]);
    // a and c share address 0, and the later one wins
    assert_eq!(state.get(0).map(|x| x.balance), Some(3));
    assert_eq!(state.get(3).map(|x| x.balance), Some(2));
    assert!(state.get(1).is_none());
}

#[test]
fn list_insert_and_get() {
    let mut list: List<Account, U2> = List::new();
    let a = Account { balance: 10, nonce: 0, pubkey: PublicKey([0; 65]) };
    assert!(list.insert(2, a).is_none());
    let b = Account { balance: 20, nonce: 1, pubkey: PublicKey([0; 65]) };
    assert_eq!(list.insert(2, b).map(|x| x.balance), Some(10));
    assert_eq!(list.get(2).map(|x| x.balance), Some(20));
    assert!(list.get(3).is_none());
}

#[test]
fn proof_of_an_empty_list_is_empty_and_has_no_root() {
    let list: List<Account, U2> = List::new();
    let mut proof = list.to_proof();
    // nothing to fill: the proof is empty and has no root
    assert_eq!(proof.root(), Err(oof::Error::EntryNotFound(1)));
}
