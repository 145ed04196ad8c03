use msg_bus::hash_map::HashMap;
use std::any::TypeId;
use std::collections::hash_map::DefaultHasher;
use std::hash::{Hash, Hasher};

fn key_of<T: 'static>() -> u64 {
    let mut h = DefaultHasher::new();
    TypeId::of::<T>().hash(&mut h);
    h.finish()
}

#[test]
fn test_map() {
    let mut map = HashMap::new();

    map.insert(key_of::<i32>(), 128);
    map.insert(key_of::<i16>(), 12);
    map.insert(key_of::<String>(), 4);
    map.insert(key_of::<&str>(), 11);

    assert_eq!(map.get(key_of::<i32>()), Some(&128));
    assert_eq!(map.get(key_of::<i16>()), Some(&12));
    assert_eq!(map.get(key_of::<String>()), Some(&4));
    assert_eq!(map.get(key_of::<&str>()), Some(&11));
}

#[test]
fn map_missing_key_is_none() {
    let mut map = HashMap::new();
    map.insert(3, "three");
    assert_eq!(map.get(4), None);
    // 258 shares the bucket of 3 (258 % 255 == 3) but not the key.
    assert_eq!(map.get(258), None);
    assert!(map.items(258).is_empty());
}

#[test]
fn map_duplicate_keys_first_wins() {
    let mut map = HashMap::new();
    map.insert(9, 1);
    map.insert(264, 5);
    map.insert(9, 2);
    assert_eq!(map.get(9), Some(&1));
    assert_eq!(map.items(9), vec![&1, &2]);
    assert_eq!(map.items(264), vec![&5]);
}

#[test]
fn map_iter_is_bucket_major() {
    let mut map = HashMap::new();
    map.insert(2, 'a');
    map.insert(1, 'b');
    map.insert(256, 'c'); // bucket 1, after key 1
    map.insert(255, 'd'); // bucket 0
    let mut it = map.iter();
    let mut seen = Vec::new();
    while let Some(e) = it.next() {
        seen.push(*e);
    }
    assert_eq!(seen, vec![(255, 'd'), (1, 'b'), (256, 'c'), (2, 'a')]);
}

#[test]
fn map_new_iter_is_empty() {
    let map: HashMap<u8> = HashMap::new();
    assert!(map.iter().next().is_none());
}
