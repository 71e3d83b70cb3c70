use nonblockinghashmap::key::ValueHolder;
use nonblockinghashmap::ConcurrentMap;
use nonblockinghashmap::NonBlockingHashMap;

#[test]
fn test_hashmap_init() {
    let map = NonBlockingHashMap::<i32, i32>::with_capacity(10);
    assert!(map.capacity() == 16 * 4);
    assert!(map.get_table_nonatomic()._chm.get_newkvs_nonatomic().is_none());
}

#[test]
fn test_with_capacity_rounds_up() {
    assert_eq!(NonBlockingHashMap::<u64, u64>::with_capacity(0).capacity(), 8);
    assert_eq!(NonBlockingHashMap::<u64, u64>::with_capacity(1).capacity(), 8);
    assert_eq!(NonBlockingHashMap::<u64, u64>::with_capacity(2).capacity(), 8);
    assert_eq!(NonBlockingHashMap::<u64, u64>::with_capacity(3).capacity(), 16);
    assert_eq!(NonBlockingHashMap::<u64, u64>::with_capacity(10).capacity(), 64);
    assert_eq!(NonBlockingHashMap::<u64, u64>::new().capacity(), 32);
}

#[test]
fn test_put_then_get() {
    let mut map = NonBlockingHashMap::<u64, u64>::new();
    let prior = map.put(7, 70);
    assert!(prior.is_tombstone());
    assert_eq!(map.get(7), Some(70));
}

#[test]
fn test_put_overwrites() {
    let mut map = NonBlockingHashMap::<u64, u64>::new();
    map.put(7, 70);
    let prior = map.put(7, 71);
    match prior {
        ValueHolder::Value(v) => assert_eq!(v, 70),
        _ => panic!("expected the first value back"),
    }
    assert_eq!(map.get(7), Some(71));
}

#[test]
fn test_get_never_inserted() {
    let mut map = NonBlockingHashMap::<u64, u64>::new();
    assert_eq!(map.get(5), None);
    map.put(7, 70);
    map.put(9, 90);
    assert_eq!(map.get(5), None);
}

#[test]
fn test_idempotent_put() {
    let mut map = NonBlockingHashMap::<String, String>::new();
    map.put(String::from("k"), String::from("a"));
    let size_before = map.get_table_nonatomic()._chm._size;
    map.put(String::from("k"), String::from("a"));
    let size_after = map.get_table_nonatomic()._chm._size;
    assert_eq!(map.get(String::from("k")), Some(String::from("a")));
    assert_eq!(size_before, size_after);
}

#[test]
fn test_delete_and_reinsert() {
    let mut map = NonBlockingHashMap::<String, String>::new();
    map.put(String::from("k"), String::from("a"));
    let slots_before = map.get_table_nonatomic()._chm._slots;
    let prior = map.delete(String::from("k"));
    match prior {
        ValueHolder::Value(v) => assert_eq!(v, String::from("a")),
        _ => panic!("expected the live value back"),
    }
    assert_eq!(map.get(String::from("k")), None);
    map.put(String::from("k"), String::from("b"));
    assert_eq!(map.get(String::from("k")), Some(String::from("b")));
    // The key slot is reused: no new slot was claimed by the re-insert.
    let slots_after = map.get_table_nonatomic()._chm._slots;
    assert_eq!(slots_before, slots_after);
}

#[test]
fn test_delete_absent_is_noop() {
    let mut map = NonBlockingHashMap::<u64, u64>::new();
    let prior = map.delete(12);
    assert!(prior.is_tombstone());
    assert_eq!(map.get(12), None);
    assert_eq!(map.get_table_nonatomic()._chm._slots, 0);
}

#[test]
fn test_resize_trigger_keeps_entries() {
    // A table of 8 slots fills after 8 inserts; the 9th exhausts its
    // probes, starts a resize, and lands in the larger successor.
    let mut map = NonBlockingHashMap::<u64, u64>::with_capacity(2);
    assert_eq!(map.capacity(), 8);
    for i in 0..9u64 {
        map.put(i, i * 10);
    }
    assert!(map.capacity() > 8);
    for i in 0..9u64 {
        assert_eq!(map.get(i), Some(i * 10), "key {} lost across the resize", i);
    }
}

#[test]
fn test_colliding_keys_resize() {
    // Keys with the same home slot build one long cluster; once the
    // cluster outgrows the probe budget (10 + len/4), an insert
    // exhausts its probes and forces a resize.
    let mut map = NonBlockingHashMap::<u64, u64>::with_capacity(64);
    assert_eq!(map.capacity(), 256);
    for i in 0..80u64 {
        map.put(i * 256, i);
    }
    for i in 0..80u64 {
        assert_eq!(map.get(i * 256), Some(i));
    }
}

#[test]
fn test_sequential_growth() {
    let mut map = NonBlockingHashMap::<i32, i32>::with_capacity(10);
    assert_eq!(map.capacity(), 64);
    for n in 0..200_000 {
        map.put(n, n);
    }
    for n in 0..200_000 {
        assert_eq!(map.get(n), Some(n), "key {} lost during growth", n);
    }
    assert!(map.capacity() >= 64);
}

#[test]
fn test_generation_walk() {
    let map = NonBlockingHashMap::<u64, u64>::new();
    assert!(map.get_kvs_level(0).is_some());
    assert!(map.get_kvs_level(1).is_none());
}

#[test]
fn test_concurrent_map_wrapper() {
    let mut shared = ConcurrentMap::<String, String>::with_capacity(16);
    shared.as_mut().put(String::from("key 1"), String::from("value 1"));
    assert_eq!(shared.as_mut().get(String::from("key 1")), Some(String::from("value 1")));
    assert_eq!(shared.as_mut().get(String::from("key 2")), None);
}

#[test]
fn test_string_keys_many() {
    let mut map = NonBlockingHashMap::<String, String>::with_capacity(2);
    for i in 0..300 {
        map.put(format!("key {}", i), format!("value {}", i));
    }
    for i in 0..300 {
        assert_eq!(map.get(format!("key {}", i)), Some(format!("value {}", i)));
    }
}

#[test]
fn test_overwrite_during_copy() {
    // A large table copies in chunks, so right after a resize starts
    // the old generation is only partly migrated; a write to a key
    // whose slot is already frozen must land in the successor.
    let mut map = NonBlockingHashMap::<u64, u64>::with_capacity(512);
    assert_eq!(map.capacity(), 2048);
    // The probe budget here is 10 + 2048/4; one more colliding key
    // exhausts it and starts the resize.
    let keys: u64 = 10 + 2048 / 4 + 1;
    for i in 0..keys {
        map.put(i * 2048, i);
    }
    // The generation chain is visible while the copy is under way.
    assert!(map.get_kvs_level(0).is_some());
    map.put(0, 999);
    assert_eq!(map.get(0), Some(999));
    for i in 1..keys {
        assert_eq!(map.get(i * 2048), Some(i));
    }
}
