use async_std::future::timeout;
use async_std::task::block_on;
use std::time::Duration;
use subscription_map::{SubscriptionEntry, SubscriptionError, SubscriptionMap};

#[test]
fn should_immediately_remove_unused() {
    let mut map: SubscriptionMap<usize, usize> = SubscriptionMap::new();
    assert_eq!(map.len(), 0);

    let handle = map.get_or_insert(1, 1);
    map.release(handle).unwrap();
    assert_eq!(map.len(), 0);

    let handle = map.get_or_insert(2, 2);
    map.release(handle).unwrap();
    assert_eq!(map.len(), 0);
}

#[test]
fn should_remove_entries_on_ref_drop() {
    let mut map: SubscriptionMap<usize, usize> = SubscriptionMap::new();
    assert_eq!(map.len(), 0);

    let ref_one = map.get_or_insert(1, 1);
    assert_eq!(map.len(), 1);

    let ref_two = map.get_or_insert(2, 2);
    assert_eq!(map.len(), 2);

    map.release(ref_one).unwrap();
    assert_eq!(map.len(), 1);
    assert!(map.ref_count(&1).is_none());
    assert!(map.ref_count(&2).is_some());

    map.release(ref_two).unwrap();
    assert_eq!(map.len(), 0);
    assert!(map.ref_count(&1).is_none());
    assert!(map.ref_count(&2).is_none());
}

#[test]
fn should_keep_track_of_ref_count() {
    let mut map: SubscriptionMap<usize, usize> = SubscriptionMap::new();
    assert_eq!(map.len(), 0);

    let ref_one = map.get_or_insert(1, 1);
    assert_eq!(map.ref_count(&1).unwrap(), 1);

    let ref_two = map.get_or_insert(1, 1);
    assert_eq!(map.ref_count(&1).unwrap(), 2);

    map.release(ref_one).unwrap();
    assert_eq!(map.ref_count(&1).unwrap(), 1);

    map.release(ref_two).unwrap();
    assert_eq!(map.len(), 0);
}

#[test]
fn default_map_is_empty() {
    let map: SubscriptionMap<usize, usize> = SubscriptionMap::default();
    assert_eq!(map.len(), 0);
    assert_eq!(map.ref_count(&0), None);
}

#[test]
fn two_handles_scenario_on_one_key() {
    let mut map: SubscriptionMap<&'static str, i32> = SubscriptionMap::new();
    assert_eq!(map.len(), 0);

    let h1 = map.get_or_insert("a", 0);
    assert_eq!(map.len(), 1);

    let h2 = map.get_or_insert("a", 0);
    assert_eq!(map.len(), 1);
    assert_eq!(map.ref_count(&"a"), Some(2));

    map.release(h1).unwrap();
    assert_eq!(map.len(), 1);
    assert_eq!(map.ref_count(&"a"), Some(1));

    map.release(h2).unwrap();
    assert_eq!(map.len(), 0);
    assert_eq!(map.ref_count(&"a"), None);
}

#[test]
fn publish_if_changed_scenario() {
    let mut map: SubscriptionMap<&'static str, i32> = SubscriptionMap::new();
    let mut h = map.get_or_insert("x", 0);

    assert_eq!(map.publish_if_changed(&"x", 0), Ok(false));
    assert_eq!(map.publish_if_changed(&"x", 1), Ok(true));
    assert_eq!(block_on(h.observable_mut().next()), 1);

    map.release(h).unwrap();
    assert_eq!(map.len(), 0);
}

#[test]
fn equal_publish_wakes_nobody() {
    let mut map: SubscriptionMap<usize, usize> = SubscriptionMap::new();
    let mut h = map.get_or_insert(7, 3);

    assert_eq!(map.publish_if_changed(&7, 3), Ok(false));
    let waited = block_on(timeout(Duration::from_millis(50), h.observable_mut().next()));
    assert!(waited.is_err());
    assert_eq!(h.latest(), 3);

    map.release(h).unwrap();
}

#[test]
fn modify_and_publish_always_makes_a_version() {
    let mut map: SubscriptionMap<usize, usize> = SubscriptionMap::new();
    let mut h = map.get_or_insert(1, 4);

    assert_eq!(map.modify_and_publish(&1, |v: &mut usize| *v = *v), Ok(()));
    let waited = block_on(timeout(Duration::from_millis(500), h.observable_mut().next()));
    assert_eq!(waited.unwrap(), 4);

    assert_eq!(map.modify_and_publish(&1, |v: &mut usize| *v += 10), Ok(()));
    assert_eq!(h.latest(), 14);
    assert_eq!(map.ref_count(&1), Some(1));

    map.release(h).unwrap();
}

#[test]
fn publishing_to_absent_key_is_not_found() {
    let mut map: SubscriptionMap<usize, usize> = SubscriptionMap::new();
    assert_eq!(map.publish_if_changed(&1, 1), Err(SubscriptionError::NotFound));
    assert_eq!(map.modify_and_publish(&1, |v: &mut usize| *v = 2), Err(SubscriptionError::NotFound));

    let h = map.get_or_insert(1, 0);
    map.release(h).unwrap();
    assert_eq!(map.publish_if_changed(&1, 1), Err(SubscriptionError::NotFound));
    assert_eq!(map.modify_and_publish(&1, |v: &mut usize| *v = 2), Err(SubscriptionError::NotFound));
    assert_eq!(map.len(), 0);
}

#[test]
fn existing_entry_keeps_its_value() {
    let mut map: SubscriptionMap<usize, usize> = SubscriptionMap::new();
    let h1 = map.get_or_insert(1, 10);
    let h2 = map.get_or_insert(1, 20);
    assert_eq!(h1.latest(), 10);
    assert_eq!(h2.latest(), 10);
    assert_eq!(*h2.key(), 1);

    map.release(h1).unwrap();
    map.release(h2).unwrap();
}

#[test]
fn handles_share_one_value_stream() {
    let mut map: SubscriptionMap<usize, usize> = SubscriptionMap::new();
    let mut h1 = map.get_or_insert(5, 0);
    let mut h2 = map.get_or_insert(5, 0);

    h1.observable_mut().publish(9);
    assert_eq!(block_on(h2.observable_mut().next()), 9);
    assert_eq!(block_on(h1.observable_mut().next()), 9);

    map.release(h1).unwrap();
    map.release(h2).unwrap();
    assert_eq!(map.len(), 0);
}

#[test]
fn release_into_other_registry_is_missing() {
    let mut map: SubscriptionMap<usize, usize> = SubscriptionMap::new();
    let mut other: SubscriptionMap<usize, usize> = SubscriptionMap::new();
    let h = map.get_or_insert(3, 0);
    assert_eq!(other.release(h), Err(SubscriptionError::MissingOnRelease));
    assert_eq!(other.len(), 0);
    assert_eq!(map.ref_count(&3), Some(1));
}

#[test]
fn remove_absent_key_is_not_found() {
    let mut map: SubscriptionMap<usize, usize> = SubscriptionMap::new();
    assert_eq!(map.remove(&4), Err(SubscriptionError::NotFoundDuringRemoval));
    assert_eq!(map.decrement(&4), Err(SubscriptionError::MissingOnRelease));
}

#[test]
fn decrement_then_remove_in_two_steps() {
    let mut map: SubscriptionMap<usize, usize> = SubscriptionMap::new();
    let h1 = map.get_or_insert(8, 0);
    let h2 = map.get_or_insert(8, 0);
    assert_eq!(map.decrement(h1.key()), Ok(1));
    assert_eq!(map.decrement(h2.key()), Ok(0));
    assert_eq!(map.ref_count(&8), Some(0));
    assert_eq!(map.len(), 1);

    let again = map.get_or_insert(8, 0);
    assert_eq!(map.ref_count(&8), Some(1));
    assert_eq!(map.decrement(again.key()), Ok(0));

    assert_eq!(map.remove(&8), Ok(()));
    assert_eq!(map.len(), 0);
}

#[test]
fn new_entry_has_no_handles() {
    let entry: SubscriptionEntry<u8> = SubscriptionEntry::new(1);
    assert_eq!(entry.ref_count(), 0);
}

#[test]
fn removal_skips_entry_taken_again() {
    let mut map: SubscriptionMap<usize, usize> = SubscriptionMap::new();
    let h = map.get_or_insert(2, 0);
    assert_eq!(map.decrement(h.key()), Ok(0));
    let again = map.get_or_insert(2, 0);
    assert_eq!(map.remove_if_unreferenced(&2), Ok(false));
    assert_eq!(map.ref_count(&2), Some(1));

    assert_eq!(map.decrement(again.key()), Ok(0));
    assert_eq!(map.remove_if_unreferenced(&2), Ok(true));
    assert_eq!(map.len(), 0);
    assert_eq!(map.remove_if_unreferenced(&2), Err(SubscriptionError::NotFoundDuringRemoval));
}

#[test]
fn registry_and_handles_print_for_debugging() {
    let mut map: SubscriptionMap<usize, usize> = SubscriptionMap::new();
    let h = map.get_or_insert(6, 2);
    assert!(format!("{:?}", map).contains("entries"));
    assert!(format!("{:?}", h).contains("key"));
    let entry: SubscriptionEntry<u8> = SubscriptionEntry::new(4);
    let copy = entry.clone();
    assert_eq!(copy.ref_count(), 0);
    map.release(h).unwrap();
}
