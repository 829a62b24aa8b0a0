use serenity::store::IdMap;

#[test]
fn the_default_map_is_empty() {
    let map: IdMap<String> = IdMap::default();
    assert!(map.is_empty());
}

#[test]
fn a_new_map_is_empty() {
    let map: IdMap<u32> = IdMap::new();
    assert_eq!(map.len(), 0);
    assert!(map.is_empty());
    assert!(!map.contains_key(&"a".to_string()));
    assert_eq!(map.get(&"a".to_string()), None);
}

#[test]
fn insert_stores_and_get_finds() {
    let mut map: IdMap<u32> = IdMap::new();
    assert_eq!(map.insert("a".to_string(), 1), None);
    assert_eq!(map.insert("b".to_string(), 2), None);
    assert_eq!(map.len(), 2);
    assert!(!map.is_empty());
    assert_eq!(map.get(&"a".to_string()), Some(&1));
    assert_eq!(map.get(&"b".to_string()), Some(&2));
    assert_eq!(map.get(&"c".to_string()), None);
    assert!(map.contains_key(&"b".to_string()));
}

#[test]
fn insert_overwrites_and_returns_what_was_there() {
    let mut map: IdMap<u32> = IdMap::new();
    map.insert("a".to_string(), 1);
    map.insert("b".to_string(), 2);
    assert_eq!(map.insert("a".to_string(), 10), Some(1));
    assert_eq!(map.len(), 2);
    assert_eq!(map.get(&"a".to_string()), Some(&10));
    assert_eq!(map.get(&"b".to_string()), Some(&2));
}

#[test]
fn positions_enumerate_every_entry_once() {
    let mut map: IdMap<u32> = IdMap::new();
    map.insert("a".to_string(), 1);
    map.insert("b".to_string(), 2);
    map.insert("a".to_string(), 3);
    let mut seen = Vec::new();
    for i in 0..map.len() {
        seen.push((map.key_at(i).clone(), *map.value_at(i)));
    }
    seen.sort();
    assert_eq!(seen, vec![("a".to_string(), 3), ("b".to_string(), 2)]);
}

#[test]
fn a_clone_holds_the_same_entries() {
    let mut map: IdMap<Vec<u32>> = IdMap::new();
    map.insert("a".to_string(), vec![1, 2]);
    map.insert("b".to_string(), vec![]);
    let mut copy = map.clone();
    assert_eq!(copy.len(), 2);
    assert_eq!(copy.get(&"a".to_string()), Some(&vec![1, 2]));
    assert_eq!(copy.get(&"b".to_string()), Some(&vec![]));
    copy.insert("a".to_string(), vec![9]);
    assert_eq!(map.get(&"a".to_string()), Some(&vec![1, 2]));
}
