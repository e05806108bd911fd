use kademlia::id::{same_id, ID_BITS, ID_BYTES};

#[test]
fn identifiers_have_160_bits() {
    assert_eq!(ID_BYTES, 20);
    assert_eq!(ID_BITS, 8 * ID_BYTES);
}

#[test]
fn same_id_compares_every_byte() {
    let a = [3u8; 20];
    assert!(same_id(&a, &a));
    for i in 0..20 {
        let mut b = a;
        b[i] ^= 1;
        assert!(!same_id(&a, &b));
        assert!(!same_id(&b, &a));
    }
}
