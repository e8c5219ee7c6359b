use road_store::slotmap::{Key, SlotMap};
use std::collections::HashSet;

fn debug_of<T: std::fmt::Debug>(key: &Key<T>) -> String {
    format!("{:?}", key)
}

#[test]
fn new_arena_is_empty() {
    let m: SlotMap<u32> = SlotMap::new();
    assert_eq!(m.iter().len(), 0);
    assert_eq!(m.values().len(), 0);
    assert_eq!(m.room(), 4_294_967_296);
}

#[test]
fn default_arena_is_empty() {
    let m: SlotMap<String> = SlotMap::default();
    assert_eq!(m.iter().len(), 0);
    assert_eq!(m.room(), 4_294_967_296);
}

#[test]
fn with_capacity_arena_is_empty() {
    let mut m: SlotMap<u8> = SlotMap::with_capacity(64);
    assert_eq!(m.iter().len(), 0);
    let k = m.insert(5);
    assert_eq!(m.get(k), Some(&5));
}

#[test]
fn insert_then_get_gives_the_value_back() {
    let mut m = SlotMap::new();
    let a = m.insert(String::from("alpha"));
    let b = m.insert(String::from("beta"));
    assert_eq!(m.get(a).map(|s| s.as_str()), Some("alpha"));
    assert_eq!(m.get(b).map(|s| s.as_str()), Some("beta"));
}

#[test]
fn first_handles_name_the_slots_in_order_with_generation_zero() {
    let mut m = SlotMap::new();
    let a = m.insert(10u32);
    let b = m.insert(20u32);
    assert!(debug_of(&a).contains("index: 0"));
    assert!(debug_of(&a).contains("generation: 0"));
    assert!(debug_of(&b).contains("index: 1"));
    assert!(debug_of(&b).contains("generation: 0"));
}

#[test]
fn remove_returns_the_value_once() {
    let mut m = SlotMap::new();
    let k = m.insert(41u64);
    assert_eq!(m.remove(k), Some(41));
    assert_eq!(m.remove(k), None);
    assert_eq!(m.iter().len(), 0);
}

#[test]
fn removed_handle_stays_dead_after_further_inserts() {
    let mut m = SlotMap::new();
    let keep = m.insert(1u32);
    let h = m.insert(2u32);
    assert_eq!(m.remove(h), Some(2));
    assert_eq!(m.get(h), None);
    assert_eq!(m.remove(h), None);
    for v in 0..100u32 {
        m.insert(v);
        assert_eq!(m.get(h), None);
    }
    assert_eq!(m.remove(h), None);
    assert!(m.get_mut(h).is_none());
    assert_eq!(m.get(keep), Some(&1));
    assert_eq!(m.iter().len(), 101);
}

#[test]
fn reused_slot_answers_to_the_new_handle_only() {
    let mut m = SlotMap::new();
    let h1 = m.insert('a');
    assert_eq!(m.remove(h1), Some('a'));
    let h2 = m.insert('b');
    assert!(debug_of(&h1).contains("index: 0"));
    assert!(debug_of(&h2).contains("index: 0"));
    assert!(debug_of(&h1).contains("generation: 0"));
    assert!(debug_of(&h2).contains("generation: 1"));
    assert!(h1 != h2);
    assert_eq!(m.get(h1), None);
    assert_eq!(m.get(h2), Some(&'b'));
}

#[test]
fn generation_rises_by_one_with_each_removal() {
    let mut m = SlotMap::new();
    let mut last = m.insert(0u32);
    for round in 1..=5u32 {
        assert_eq!(m.remove(last), Some(round - 1));
        let next = m.insert(round);
        assert!(debug_of(&next).contains("index: 0"));
        assert!(debug_of(&next).contains(&format!("generation: {}", round)));
        assert!(next != last);
        last = next;
    }
    assert_eq!(m.get(last), Some(&5));
}

#[test]
fn vacant_slots_are_reused_last_freed_first() {
    let mut m = SlotMap::new();
    let a = m.insert("a");
    let b = m.insert("b");
    let c = m.insert("c");
    assert_eq!(m.remove(a), Some("a"));
    assert_eq!(m.remove(c), Some("c"));
    let x = m.insert("x");
    let y = m.insert("y");
    let z = m.insert("z");
    assert!(debug_of(&x).contains("index: 2"));
    assert!(debug_of(&y).contains("index: 0"));
    assert!(debug_of(&z).contains("index: 3"));
    assert!(debug_of(&z).contains("generation: 0"));
    assert_eq!(m.get(b), Some(&"b"));
    assert_eq!(m.values(), vec![&"y", &"b", &"x", &"z"]);
}

#[test]
fn get_mut_changes_the_stored_value_only() {
    let mut m = SlotMap::new();
    let a = m.insert(1i32);
    let b = m.insert(2i32);
    *m.get_mut(a).unwrap() += 40;
    assert_eq!(m.get(a), Some(&41));
    assert_eq!(m.get(b), Some(&2));
    assert_eq!(m.iter().len(), 2);
}

#[test]
fn get_mut_through_a_dead_handle_gives_nothing() {
    let mut m = SlotMap::new();
    let a = m.insert(1i32);
    m.remove(a);
    assert!(m.get_mut(a).is_none());
    let b = m.insert(2i32);
    assert!(m.get_mut(a).is_none());
    assert_eq!(m.get_mut(b), Some(&mut 2));
}

#[test]
fn handle_beyond_the_slots_resolves_to_nothing() {
    let mut big = SlotMap::new();
    big.insert(0u8);
    big.insert(1u8);
    let far = big.insert(2u8);
    let mut small: SlotMap<u8> = SlotMap::new();
    small.insert(9);
    assert_eq!(small.get(far), None);
    assert!(small.get_mut(far).is_none());
    assert_eq!(small.remove(far), None);
    assert_eq!(small.values(), vec![&9]);
}

#[test]
fn iter_yields_the_stored_values_after_inserts_and_removes() {
    let mut m = SlotMap::new();
    let keys: Vec<Key<u32>> = (0..10u32).map(|v| m.insert(v * v)).collect();
    for &i in &[1usize, 4, 6, 9] {
        assert_eq!(m.remove(keys[i]), Some((i * i) as u32));
    }
    let entries = m.iter();
    assert_eq!(entries.len(), 6);
    for (k, v) in &entries {
        assert_eq!(m.get(*k), Some(*v));
    }
    let values: Vec<u32> = entries.iter().map(|(_, v)| **v).collect();
    assert_eq!(values, vec![0, 4, 9, 25, 49, 64]);
    let handles: Vec<Key<u32>> = entries.iter().map(|(k, _)| *k).collect();
    assert_eq!(handles, vec![keys[0], keys[2], keys[3], keys[5], keys[7], keys[8]]);
}

#[test]
fn iter_is_empty_when_everything_was_removed() {
    let mut m = SlotMap::new();
    let keys: Vec<Key<u8>> = (0..5u8).map(|v| m.insert(v)).collect();
    for k in keys {
        assert!(m.remove(k).is_some());
    }
    assert_eq!(m.iter().len(), 0);
    assert_eq!(m.values().len(), 0);
}

#[test]
fn iter_follows_slot_order_not_insertion_order_after_reuse() {
    let mut m = SlotMap::new();
    let a = m.insert("a");
    let b = m.insert("b");
    let c = m.insert("c");
    m.remove(b);
    let d = m.insert("d");
    let entries = m.iter();
    assert_eq!(entries, vec![(a, &"a"), (d, &"d"), (c, &"c")]);
    assert_eq!(m.values(), vec![&"a", &"d", &"c"]);
}

#[test]
fn values_are_the_second_halves_of_iter() {
    let mut m = SlotMap::new();
    for v in 0..7u16 {
        m.insert(v);
    }
    let from_iter: Vec<&u16> = m.iter().into_iter().map(|(_, v)| v).collect();
    assert_eq!(m.values(), from_iter);
}

#[test]
fn room_follows_the_number_of_stored_values() {
    let mut m = SlotMap::new();
    let a = m.insert(1u8);
    let _b = m.insert(2u8);
    assert_eq!(m.room(), 4_294_967_294);
    m.remove(a);
    assert_eq!(m.room(), 4_294_967_295);
    m.remove(a);
    assert_eq!(m.room(), 4_294_967_295);
    m.insert(3);
    assert_eq!(m.room(), 4_294_967_294);
}

#[test]
fn keys_are_copied_and_compared_by_value() {
    let mut m = SlotMap::new();
    let a = m.insert(String::from("not copy"));
    let b = m.insert(String::from("another"));
    let a2 = a;
    let a3 = a.clone();
    assert!(a == a2);
    assert!(a == a3);
    assert!(a != b);
    assert_eq!(m.get(a2).map(|s| s.len()), Some(8));
}

#[test]
fn keys_can_be_collected_in_a_hash_set() {
    let mut m = SlotMap::new();
    let a = m.insert(1u32);
    let b = m.insert(2u32);
    m.remove(a);
    let c = m.insert(3u32);
    let set: HashSet<Key<u32>> = [a, b, c, a, b, c].into_iter().collect();
    assert_eq!(set.len(), 3);
    assert!(set.contains(&a));
    assert!(set.contains(&c));
}
