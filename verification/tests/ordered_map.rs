use config_builder::id::ComponentId;
use config_builder::ordered::OrderedMap;

fn global(name: &str) -> ComponentId {
    ComponentId::global(name.to_string())
}

#[test]
fn new_map_is_empty() {
    let map: OrderedMap<u32> = OrderedMap::new();
    assert_eq!(map.len(), 0);
    assert!(map.is_empty());
    assert_eq!(map.position(&global("a")), None);
    assert!(!map.contains_key(&global("a")));
    assert_eq!(map.get(&global("a")), None);
}

#[test]
fn insert_keeps_insertion_order() {
    let mut map: OrderedMap<u32> = OrderedMap::new();
    assert_eq!(map.insert(global("c"), 3), None);
    assert_eq!(map.insert(global("a"), 1), None);
    assert_eq!(map.insert(ComponentId::pipeline("p", "a"), 7), None);
    assert_eq!(map.len(), 3);
    assert!(!map.is_empty());
    assert_eq!(map.key_at(0), global("c"));
    assert_eq!(map.key_at(1), global("a"));
    assert_eq!(map.key_at(2), ComponentId::pipeline("p", "a"));
    assert_eq!(*map.value_at(0), 3);
    assert_eq!(*map.value_at(1), 1);
    assert_eq!(*map.value_at(2), 7);
    assert_eq!(map.position(&global("a")), Some(1));
    assert_eq!(map.position(&ComponentId::pipeline("p", "a")), Some(2));
    assert_eq!(map.position(&ComponentId::pipeline("q", "a")), None);
}

#[test]
fn insert_of_a_bound_key_replaces_in_place() {
    let mut map: OrderedMap<u32> = OrderedMap::new();
    map.insert(global("a"), 1);
    map.insert(global("b"), 2);
    assert_eq!(map.insert(global("a"), 10), Some(1));
    assert_eq!(map.len(), 2);
    assert_eq!(map.key_at(0), global("a"));
    assert_eq!(map.get(&global("a")), Some(&10));
    assert_eq!(map.get(&global("b")), Some(&2));
}

#[test]
fn value_at_mut_changes_one_value() {
    let mut map: OrderedMap<Vec<u32>> = OrderedMap::new();
    map.insert(global("a"), vec![1]);
    map.insert(global("b"), vec![2]);
    map.value_at_mut(1).push(3);
    assert_eq!(map.get(&global("a")), Some(&vec![1]));
    assert_eq!(map.get(&global("b")), Some(&vec![2, 3]));
}

#[test]
fn shares_key_at_looks_the_other_key_up() {
    let mut own: OrderedMap<u32> = OrderedMap::new();
    own.insert(global("a"), 1);
    let mut other: OrderedMap<u32> = OrderedMap::new();
    other.insert(global("b"), 2);
    other.insert(global("a"), 3);
    assert!(!own.shares_key_at(&other, 0));
    assert!(own.shares_key_at(&other, 1));
}

#[test]
fn into_entries_hands_out_every_entry_in_order() {
    let mut map: OrderedMap<u32> = OrderedMap::new();
    map.insert(global("b"), 2);
    map.insert(ComponentId::pipeline("p", "x"), 5);
    map.insert(global("a"), 1);
    let entries = map.into_entries();
    assert_eq!(
        entries,
        vec![(global("b"), 2), (ComponentId::pipeline("p", "x"), 5), (global("a"), 1)]
    );
}

#[test]
fn extend_inserts_each_entry_in_order() {
    let mut own: OrderedMap<u32> = OrderedMap::new();
    own.insert(global("a"), 1);
    own.insert(global("b"), 2);
    let mut other: OrderedMap<u32> = OrderedMap::new();
    other.insert(global("c"), 3);
    other.insert(global("a"), 4);
    own.extend(other);
    assert_eq!(own.into_entries(), vec![(global("a"), 4), (global("b"), 2), (global("c"), 3)]);
}
