use pow_ledger::hash;

#[test]
fn blank_hash_is_sixty_four_zeros() {
    assert_eq!(hash::Hash::blank().0, "0".repeat(64));
}

#[test]
fn hash_of_known_input() {
    let h = hash::Hash::new(b"abc").unwrap();
    assert_eq!(h.0, "ba7816bf8f01cfea414140de5dae2223b00361a396177a9cb410ff61f20015ad");
}

#[test]
fn same_compares_the_texts() {
    let a = hash::Hash::new(b"a").unwrap();
    assert!(a.same(&a.clone()));
    assert!(!a.same(&hash::Hash::blank()));
    assert!(hash::Hash::blank().same(&hash::Hash("0".repeat(64))));
}

#[test]
fn addresses_compare_by_their_bytes() {
    let a = pow_ledger::ecdsa::Address { bytes: [2; 33] };
    let mut b = pow_ledger::ecdsa::Address { bytes: [2; 33] };
    assert!(a.same(&b));
    b.bytes[32] = 3;
    assert!(!a.same(&b));
    assert!(pow_ledger::ecdsa::same_bytes(&[], &[]));
    assert!(!pow_ledger::ecdsa::same_bytes(&[1], &[1, 0]));
    assert!(!pow_ledger::ecdsa::same_bytes(&[1, 2], &[2, 1]));
}
