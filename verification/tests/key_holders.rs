use nonblockinghashmap::key::{KeyHolder, ValueHolder};
use nonblockinghashmap::key::ValueHolder::{Prime, Tombstone, Value};

#[test]
fn test_keyholder_key_eq() {
    let k1 = KeyHolder::Key(String::from("abc"));
    let k2 = KeyHolder::Key(String::from("abc"));
    assert_eq!(k1, k2);
    println!("{:?}", k1);
}

#[test]
fn test_keyholder_is_tombstone() {
    let k1 = KeyHolder::Key(String::from("abc"));
    assert!(!k1.is_tombstone());
    assert!(KeyHolder::<&str>::Tombstone.is_tombstone());
}

#[test]
fn test_keyholder_eq() {
    let k1 = KeyHolder::Key("abc");
    assert_ne!(k1, KeyHolder::Tombstone);
    let k2 = KeyHolder::<i32>::Tombstone;
    assert_eq!(KeyHolder::Tombstone, k2);
}

#[test]
fn test_valueholder_prime() {
    assert!(!Value(1).is_prime());
    assert!(Prime(Box::new(Value("abc"))).is_prime());
    assert!(!ValueHolder::<usize>::Tombstone.is_prime());
    assert!(Prime::<usize>(Box::new(Tombstone)).is_prime());
}

#[test]
fn test_prime() {
    let v1 = ValueHolder::to_prime(Box::new(ValueHolder::Value(42u64)));
    assert!(v1.is_prime());
    assert!(!v1.is_tombstone());

    let boxed1 = ValueHolder::unwrap_prime(v1);
    assert!(!(*boxed1).is_prime());
    assert!(!(*boxed1).is_tombstone());

    let v2 = ValueHolder::<usize>::to_prime(Box::new(Tombstone));
    assert!(v2.is_prime());
    assert!(v2.is_tombstone());

    let boxed2 = ValueHolder::unwrap_prime(v2);
    assert!(!(*boxed2).is_prime());
    assert!((*boxed2).is_tombstone());
}

#[test]
fn test_valueholder_tombstone() {
    assert!(!Value(1).is_tombstone());
    assert!(!Prime(Box::new(Value("abc"))).is_tombstone());
    assert!(Tombstone::<usize>.is_tombstone());
    assert!(Prime::<usize>(Box::new(Tombstone)).is_tombstone());
}
