use nonblockinghashmap::atomicvec::AtomicVec;
use nonblockinghashmap::key::{KeyHolder, ValueHolder};
use nonblockinghashmap::keyvalue::{Key, Value};
use nonblockinghashmap::kvtable::KVs;

#[test]
fn test_load() {
    let v = AtomicVec::<i32>::with_capacity(100);
    assert!(v.load(10).is_none());
    assert!(v.load(99).is_none());
}

#[test]
fn test_cas() {
    let mut v = AtomicVec::with_capacity(100);
    assert!(v.exchange(10, Some(5)).is_none());

    assert_eq!(Some(5), v.exchange(10, Some(42)));

    assert_eq!(&Some(42), v.load(10));
    assert!(v.load(11).is_none());
    assert!(v.load(9).is_none());

    assert_eq!(Some(42), v.exchange(10, None));
    assert!(v.exchange(10, None).is_none());
}

#[test]
fn test_key_drop() {
    drop(Key::new(42));
    drop(Key::new(String::from("Hello")));
}

#[test]
fn test_key_empty_tombstone_drop() {
    drop(Key::<String>::new_empty());
    drop(Key::<String>::new_tombstone());
}

#[test]
fn test_value_drop() {
    drop(Value::new(42));
    drop(Value::new_prime(42));
    drop(Value::new(String::from("Hello")));
    drop(Value::new_prime(String::from("Hello")));
    drop(Value::new(String::from("Hello")).get_prime());
    drop(Value::new_prime(String::from("Hello")).get_unprime());
}

#[test]
fn test_value_tombstones_drop() {
    let value = Value::<String>::new_tombstone();
    drop(value);
    let value = Value::<String>::new_tombstone().get_prime();
    drop(value);
    let value = Value::<String>::new_tombprime();
    drop(value);
    let value = Value::<String>::new_tombprime().get_unprime();
    drop(value);
}

#[test]
fn test_kvs_init() {
    let kvs = KVs::<i32, i32>::new(10);
    for i in 0..kvs._ks.len() {
        assert!(kvs._ks.load(i).is_none());
    }
    for i in 0..kvs._ks.len() {
        assert!(kvs._vs.load(i).is_none());
    }
}

#[test]
fn test_key_value_tags() {
    let k = Key::new(7u64);
    assert!(!k.is_empty());
    assert!(!k.is_tombstone());
    assert_eq!(*k.get_key(), 7u64);

    let v = Value::new(9u64);
    assert!(!v.is_empty());
    assert!(!v.is_tombstone());
    assert!(!v.is_prime());
    assert!(!v.is_tombprime());
    assert_eq!(*v.get_value(), Some(9u64));

    let vp = v.get_prime();
    assert!(vp.is_prime());
    assert!(!vp.is_tombprime());

    let tp = Value::<u64>::new_tombprime();
    assert!(tp.is_tombprime());
}

#[test]
fn test_holder_slots_in_vec() {
    let mut ks: AtomicVec<KeyHolder<u64>> = AtomicVec::with_capacity(8);
    let mut vs: AtomicVec<ValueHolder<u64>> = AtomicVec::with_capacity(8);
    assert!(ks.exchange(3, Some(KeyHolder::Key(5))).is_none());
    assert!(vs.exchange(3, Some(ValueHolder::Value(50))).is_none());
    assert_eq!(&Some(KeyHolder::Key(5)), ks.load(3));
    assert_eq!(&Some(ValueHolder::Value(50)), vs.load(3));
}
