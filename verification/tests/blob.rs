use see::address::Address;
use see::blob::RawBlob;
use see::generate::transfer;

#[test]
fn raw_proof_splits_after_the_transactions() {
    let mut input = 2u32.to_le_bytes().to_vec();
    input.extend(transfer(Address(1), Address(2), 10, 0));
    input.extend(transfer(Address(3), Address(4), 20, 1));
    input.extend(vec![9u8, 8, 7]);
    let mut blob = RawBlob::new(&input);
    assert_eq!(blob.tx_count(), 2);
    let proof = blob.raw_proof();
    assert_eq!(proof.to_vec(), vec![9u8, 8, 7]);
    let txs = blob.transactions();
    assert_eq!(txs.len(), 2);
    assert_eq!(txs[0].to, Address(1));
    assert_eq!(txs[0].amount, 10);
    assert_eq!(txs[1].from, Address(4));
    assert_eq!(txs[1].nonce, 1);
}

#[test]
fn empty_block_has_only_a_proof() {
    let mut input = 0u32.to_le_bytes().to_vec();
    input.extend(vec![1u8, 2]);
    let mut blob = RawBlob::new(&input);
    assert_eq!(blob.tx_count(), 0);
    assert_eq!(blob.raw_proof().to_vec(), vec![1u8, 2]);
    assert!(blob.transactions().is_empty());
}
