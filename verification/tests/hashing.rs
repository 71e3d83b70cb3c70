use nonblockinghashmap::hashkey::{MapKey, MapValue, FNV_OFFSET};

#[test]
fn test_integer_hash_is_identity() {
    assert_eq!(5u64.full_hash(), 5);
    assert_eq!(0u64.full_hash(), 0);
    assert_eq!(7i32.full_hash(), 7);
    assert_eq!((-1i32).full_hash(), u64::MAX);
}

#[test]
fn test_string_hash_fnv() {
    // The empty string folds nothing: the offset basis comes back.
    assert_eq!(String::from("").full_hash(), FNV_OFFSET);
    // One step of FNV-1a by hand.
    let by_hand = (FNV_OFFSET ^ ('a' as u64)).wrapping_mul(0x100000001b3);
    assert_eq!(String::from("a").full_hash(), by_hand);
    // Deterministic, and sensitive to content.
    assert_eq!(String::from("key 7").full_hash(), String::from("key 7").full_hash());
    assert_ne!(String::from("key 7").full_hash(), String::from("key 8").full_hash());
}

#[test]
fn test_key_eq_and_dup() {
    let a = String::from("abc");
    let b = String::from("abc");
    let c = String::from("abd");
    assert!(a.key_eq(&b));
    assert!(!a.key_eq(&c));
    assert!(MapValue::val_eq(&a, &b));
    let d = a.dup_key();
    assert!(d.key_eq(&a));
    assert_eq!(d.full_hash(), a.full_hash());
    assert_eq!(9u64.dup_key(), 9);
    assert_eq!(MapValue::dup_val(&9u64), 9);
}
