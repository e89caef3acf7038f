use see::address::Address;
use see::generate::transfer;
use see::transaction::{Transaction, SIGNATURE_LEN, TX_LEN};

#[test]
fn serialize() {
    let tx = Transaction {
        to: Address::zero(),
        from: Address::one(),
        nonce: 3,
        amount: 4,
        signature: [5; SIGNATURE_LEN],
    };

    let mut bytes = Address::zero().to_bytes().to_vec();
    bytes.extend(&Address::one().to_bytes());
    bytes.extend(&3u64.to_le_bytes());
    bytes.extend(&4u64.to_le_bytes());
    bytes.extend([5u8; SIGNATURE_LEN].to_vec());

    assert_eq!(tx.to_bytes().to_vec(), bytes);
}

#[test]
fn transaction_decodes_what_it_encodes() {
    let mut signature = [0u8; SIGNATURE_LEN];
    for (i, b) in signature.iter_mut().enumerate() {
        *b = i as u8;
    }
    let tx = Transaction {
        to: Address(0x0102_0304_0506_0708_090a_0b0c_0d0e_0f10),
        from: Address(u128::MAX),
        nonce: 0xdead_beef,
        amount: 77,
        signature,
    };
    let bytes = tx.to_bytes();
    let back = Transaction::from_bytes(&bytes);
    assert_eq!(back.to, tx.to);
    assert_eq!(back.from, tx.from);
    assert_eq!(back.nonce, tx.nonce);
    assert_eq!(back.amount, tx.amount);
    assert_eq!(back.signature.to_vec(), tx.signature.to_vec());
    assert_eq!(back.to_bytes().to_vec(), bytes.to_vec());
}

#[test]
fn transaction_layout_offsets() {
    let mut bytes = vec![0u8; TX_LEN];
    bytes[0] = 7;
    bytes[16] = 9;
    bytes[32] = 1;
    bytes[33] = 1;
    bytes[40] = 200;
    bytes[143] = 42;
    let tx = Transaction::from_bytes(&bytes);
    assert_eq!(tx.to, Address(7));
    assert_eq!(tx.from, Address(9));
    assert_eq!(tx.nonce, 257);
    assert_eq!(tx.amount, 200);
    assert_eq!(tx.signature[95], 42);
    assert_eq!(tx.len(), 144);
    assert_eq!(tx.verify(), see::error::OK);
}

#[test]
fn transfer_encodes_nonce_before_amount() {
    let bytes = transfer(Address::zero(), Address::one(), 1, 3);
    assert_eq!(bytes.len(), 144);
    let tx = Transaction::from_bytes(&bytes);
    assert_eq!(tx.to, Address(0));
    assert_eq!(tx.from, Address(1));
    assert_eq!(tx.amount, 1);
    assert_eq!(tx.nonce, 3);
    assert_eq!(bytes[32], 3);
    assert_eq!(bytes[40], 1);
    assert!(tx.signature.iter().all(|b| *b == 0));
}

#[test]
fn address_bytes_are_little_endian() {
    let a = Address(0x0102);
    let b = a.to_bytes();
    assert_eq!(b[0], 2);
    assert_eq!(b[1], 1);
    assert!(b[2..].iter().all(|x| *x == 0));
    assert_eq!(Address::from_bytes(&b), a);
    assert_eq!(Address::zero(), Address(0));
    assert_eq!(Address::one(), Address(1));
}

#[test]
fn address_addition() {
    assert_eq!(Address(2) + Address(3), Address(5));
    assert_eq!(Address(2) + 40u128, Address(42));
    assert_eq!(40u128 + Address(2), 42u128);
}
