use oof::hash::hash;
use oof::Oof;
use see::account::{make_value, Account, RefAccount};
use see::crypto::PublicKey;
use see::list::Provable;
use see::reflist::RefNode;
use std::convert::TryInto;

fn a32(s: &[u8]) -> [u8; 32] {
    s.try_into().unwrap()
}

#[test]
fn account_test() {
    let a = Account {
        balance: 1,
        nonce: 2,
        pubkey: PublicKey([1; 65]),
    };

    let mut oof = Oof::from_map(a.clone().to_tree().into());
    let ptr = RefAccount::new(1);

    assert_eq!(ptr.balance(&oof), a.balance);
    assert_eq!(ptr.nonce(&oof), a.nonce);
    assert_eq!(ptr.pubkey(&oof)[..], a.pubkey.0[..]);

    let eight = hash(&a32(&a.pubkey.0[0..32]), &a32(&a.pubkey.0[32..64]));
    let nine = hash(&make_value(&a.pubkey.0[64..65]), &[0; 32]);
    let four = hash(&eight, &nine);
    let two = hash(&four, &make_value(&a.balance.to_le_bytes()));
    let three = hash(&make_value(&a.nonce.to_le_bytes()), &[0; 32]);
    let one = hash(&two, &three);

    assert_eq!(oof.root(), Ok(&one));
}

#[test]
fn balance_write_then_read() {
    let a = Account { balance: 5, nonce: 9, pubkey: PublicKey([3; 65]) };
    let mut oof = Oof::from_map(a.to_tree().into());
    let mut ptr = RefAccount::new(1);
    ptr.set_balance(&mut oof, 123_456);
    assert_eq!(ptr.balance(&oof), 123_456);
    assert_eq!(ptr.nonce(&oof), 9);
    // the stale parent of the balance chunk is dropped
    assert_eq!(oof.get(&2), None);
    ptr.inc_nonce(&mut oof);
    assert_eq!(ptr.nonce(&oof), 10);
    assert_eq!(ptr.balance(&oof), 123_456);
    // the root is recomputed from the new chunks
    let expected = Account { balance: 123_456, nonce: 10, pubkey: PublicKey([3; 65]) };
    let mut fresh = Oof::from_map(expected.to_tree().into());
    assert_eq!(oof.root().cloned(), fresh.root().cloned());
}

#[test]
fn account_in_a_deeper_node() {
    let a = Account { balance: 77, nonce: 1, pubkey: PublicKey([2; 65]) };
    let mut tree = arborist::Tree::new();
    tree.insert_subtree(6, a.to_tree());
    let oof = Oof::from_map(tree.into());
    let ptr = RefAccount::new(6);
    assert_eq!(ptr.balance(&oof), 77);
    assert_eq!(ptr.nonce(&oof), 1);
    assert_eq!(ptr.pubkey(&oof).to_vec(), vec![2u8; 65]);
}

#[test]
fn make_value_pads_with_zeros() {
    let v = make_value(&[1, 2, 3]);
    assert_eq!(&v[0..3], &[1, 2, 3]);
    assert!(v[3..].iter().all(|b| *b == 0));
}
