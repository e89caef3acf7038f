use see::crypto::PublicKey;

fn key_with_tail(tail: u128) -> PublicKey {
    let mut k = vec![0u8; 49];
    k.extend(&tail.to_le_bytes());
    let mut a = [0u8; 65];
    a.copy_from_slice(&k);
    PublicKey::new(a)
}

#[test]
fn to_address_divides_the_tail() {
    // (2^127 - 3) / ((2^128 - 1) / 4) == 1
    assert_eq!(key_with_tail((u128::MAX >> 1) - 2).to_address(4).0, 1);
    // 2^127 / ((2^128 - 1) / 4) == 2
    assert_eq!(key_with_tail((u128::MAX >> 1) + 1).to_address(4).0, 2);
    assert_eq!(key_with_tail(0).to_address(4).0, 0);
    // the largest tail maps one past the last address
    assert_eq!(key_with_tail(u128::MAX).to_address(4).0, 4);
    assert_eq!(key_with_tail(12345).to_address(1).0, 0);
}

#[test]
fn as_bytes_gives_the_key() {
    let k = PublicKey::new([7u8; 65]);
    assert_eq!(k.as_bytes().to_vec(), vec![7u8; 65]);
}

#[test]
fn larger_tails_map_to_larger_addresses() {
    let mut last = 0;
    for tail in [0u128, 1 << 100, 1 << 126, (1 << 127) + 5, u128::MAX - 1, u128::MAX] {
        let a = key_with_tail(tail).to_address(16).0;
        assert!(a >= last);
        assert!(a <= 16);
        last = a;
    }
}
