use moka::{CacheBuilder, Notification, RemovalCause, Weigher};
use std::time::Duration;

/// Weighs a string value by its length.
struct LengthWeigher;

impl Weigher<u32, String> for LengthWeigher {
    fn spec_weigh(&self, _key: u32, value: String) -> u64 {
        value.len() as u64
    }

    fn weigh(&self, _key: &u32, value: &String) -> u64 {
        value.len() as u64
    }
}

fn causes<K, V>(notes: &[Notification<K, V>]) -> Vec<RemovalCause> {
    notes.iter().map(|n| n.cause).collect()
}

#[test]
fn basic_insert_get() {
    let mut cache = CacheBuilder::new(100).build().unwrap();
    cache.insert("a", "Alice");
    assert_eq!(cache.get(&"a"), Some(&"Alice"));
    assert_eq!(cache.len(), 1);
}

#[test]
fn size_eviction() {
    let mut cache = CacheBuilder::new(2).build().unwrap();
    cache.insert(1, 1);
    cache.insert(2, 2);
    cache.insert(3, 3);
    cache.run_pending_tasks();
    assert_eq!(cache.len(), 2);
    let notes = cache.take_notifications();
    assert_eq!(notes.len(), 1);
    assert_eq!(notes[0].cause, RemovalCause::Size);
    assert!(notes[0].key == 1 || notes[0].key == 2);
    assert_eq!(notes[0].key, 1);
    assert_eq!(notes[0].value, 1);
    assert_eq!(cache.get(&3), Some(&3));
}

#[test]
fn size_eviction_follows_recency() {
    let mut cache = CacheBuilder::new(2).build().unwrap();
    cache.insert(1, 10);
    cache.insert(2, 20);
    assert_eq!(cache.get(&1), Some(&10));
    cache.insert(3, 30);
    let notes = cache.take_notifications();
    assert_eq!(notes.len(), 1);
    assert_eq!(notes[0].key, 2);
    assert_eq!(cache.get(&1), Some(&10));
    assert_eq!(cache.get(&2), None);
}

#[test]
fn ttl_expiration() {
    let mut cache = CacheBuilder::new(100)
        .time_to_live(Duration::from_secs(60))
        .build()
        .unwrap();
    cache.insert("k", "v");
    cache.advance_time(Duration::from_secs(61));
    assert_eq!(cache.get(&"k"), None);
    cache.run_pending_tasks();
    let notes = cache.take_notifications();
    assert_eq!(notes.len(), 1);
    assert_eq!(notes[0].cause, RemovalCause::Expired);
    assert_eq!(notes[0].key, "k");
    assert_eq!(notes[0].value, "v");
    assert_eq!(cache.len(), 0);
}

#[test]
fn ttl_not_reached_keeps_entry() {
    let mut cache = CacheBuilder::new(100)
        .time_to_live(Duration::from_secs(60))
        .build()
        .unwrap();
    cache.insert("k", "v");
    cache.advance_time(Duration::from_secs(59));
    assert_eq!(cache.get(&"k"), Some(&"v"));
    cache.advance_time(Duration::from_secs(1));
    assert_eq!(cache.get(&"k"), None);
}

#[test]
fn ttl_is_not_extended_by_reads() {
    let mut cache = CacheBuilder::new(100)
        .time_to_live(Duration::from_secs(60))
        .time_to_idle(Duration::from_secs(30))
        .build()
        .unwrap();
    cache.insert("k", "v");
    for _ in 0..5 {
        cache.advance_time(Duration::from_secs(10));
        assert_eq!(cache.get(&"k"), Some(&"v"));
    }
    cache.advance_time(Duration::from_secs(10));
    assert_eq!(cache.get(&"k"), None);
}

#[test]
fn tti_extension() {
    let mut cache = CacheBuilder::new(100)
        .time_to_idle(Duration::from_secs(30))
        .build()
        .unwrap();
    cache.insert("k", "v");
    cache.advance_time(Duration::from_secs(20));
    assert_eq!(cache.get(&"k"), Some(&"v"));
    cache.advance_time(Duration::from_secs(20));
    assert_eq!(cache.get(&"k"), Some(&"v"));
    cache.advance_time(Duration::from_secs(31));
    assert_eq!(cache.get(&"k"), None);
}

#[test]
fn replaced_cause() {
    let mut cache = CacheBuilder::new(100).build().unwrap();
    cache.insert("k", "v1");
    cache.insert("k", "v2");
    cache.run_pending_tasks();
    let notes = cache.take_notifications();
    assert_eq!(notes.len(), 1);
    assert_eq!(notes[0].cause, RemovalCause::Replaced);
    assert_eq!(notes[0].key, "k");
    assert_eq!(notes[0].value, "v1");
    assert_eq!(cache.get(&"k"), Some(&"v2"));
    assert_eq!(cache.len(), 1);
}

#[test]
fn repeated_insert_same_value_replaces_each_time() {
    let mut cache = CacheBuilder::new(100).build().unwrap();
    for _ in 0..4 {
        cache.insert("k", "v");
    }
    let notes = cache.take_notifications();
    assert_eq!(causes(&notes), vec![RemovalCause::Replaced; 3]);
    assert_eq!(cache.len(), 1);
}

#[test]
fn invalidate_then_get_is_absent() {
    let mut cache = CacheBuilder::new(10).build().unwrap();
    cache.insert(1, "one");
    cache.insert(2, "two");
    assert!(cache.invalidate(&1));
    assert_eq!(cache.get(&1), None);
    assert_eq!(cache.get(&2), Some(&"two"));
    let notes = cache.take_notifications();
    assert_eq!(notes.len(), 1);
    assert_eq!(notes[0].cause, RemovalCause::Explicit);
    assert_eq!(notes[0].key, 1);
}

#[test]
fn invalidate_absent_key_is_noop() {
    let mut cache = CacheBuilder::new(10).build().unwrap();
    cache.insert(1, "one");
    assert!(!cache.invalidate(&7));
    assert!(!cache.invalidate(&7));
    assert_eq!(cache.len(), 1);
    assert!(cache.take_notifications().is_empty());
}

#[test]
fn invalidate_all_empties_cache() {
    let mut cache = CacheBuilder::new(10).build().unwrap();
    cache.insert(1, 'a');
    cache.insert(2, 'b');
    cache.insert(3, 'c');
    cache.invalidate_all();
    assert_eq!(cache.len(), 0);
    assert_eq!(cache.weighted_size(), 0);
    let notes = cache.take_notifications();
    assert_eq!(causes(&notes), vec![RemovalCause::Explicit; 3]);
    let keys: Vec<i32> = notes.iter().map(|n| n.key).collect();
    assert_eq!(keys, vec![1, 2, 3]);
}

#[test]
fn invalidate_all_on_empty_cache() {
    let mut cache = CacheBuilder::<u8, u8, _>::new(10).build().unwrap();
    cache.invalidate_all();
    assert_eq!(cache.len(), 0);
    assert!(cache.take_notifications().is_empty());
}

#[test]
fn weight_equal_to_capacity_is_admitted() {
    let mut cache = CacheBuilder::new(5).weigher(LengthWeigher).build().unwrap();
    cache.insert(1, "ab".to_string());
    cache.insert(2, "abcde".to_string());
    assert_eq!(cache.get(&2), Some(&"abcde".to_string()));
    assert_eq!(cache.weighted_size(), 5);
    let notes = cache.take_notifications();
    assert_eq!(notes.len(), 1);
    assert_eq!(notes[0].key, 1);
    assert_eq!(notes[0].cause, RemovalCause::Size);
}

#[test]
fn weight_above_capacity_is_refused() {
    let mut cache = CacheBuilder::new(5).weigher(LengthWeigher).build().unwrap();
    cache.insert(1, "ab".to_string());
    cache.insert(2, "abcdef".to_string());
    assert_eq!(cache.get(&2), None);
    assert_eq!(cache.get(&1), Some(&"ab".to_string()));
    assert_eq!(cache.weighted_size(), 2);
    let notes = cache.take_notifications();
    assert_eq!(notes.len(), 1);
    assert_eq!(notes[0].key, 2);
    assert_eq!(notes[0].value, "abcdef");
    assert_eq!(notes[0].cause, RemovalCause::Size);
}

#[test]
fn zero_weight_counts_as_one() {
    let mut cache = CacheBuilder::new(2).weigher(LengthWeigher).build().unwrap();
    cache.insert(1, String::new());
    cache.insert(2, String::new());
    assert_eq!(cache.weighted_size(), 2);
    cache.insert(3, String::new());
    assert_eq!(cache.len(), 2);
    assert_eq!(cache.weighted_size(), 2);
}

#[test]
fn insert_with_weight_evicts_until_it_fits() {
    let mut cache = CacheBuilder::<u32, u32, _>::new(10).build().unwrap();
    cache.insert_with_weight(1, 1, 4);
    cache.insert_with_weight(2, 2, 4);
    cache.insert_with_weight(3, 3, 9);
    assert_eq!(cache.len(), 1);
    assert_eq!(cache.weighted_size(), 9);
    let keys: Vec<u32> = cache.take_notifications().iter().map(|n| n.key).collect();
    assert_eq!(keys, vec![1, 2]);
}

#[test]
fn sum_of_weights_stays_within_capacity() {
    let mut cache = CacheBuilder::<u32, u32, _>::new(20).build().unwrap();
    for i in 0..50u32 {
        cache.insert_with_weight(i % 13, i, (i % 7) as u64);
        if i % 5 == 0 {
            cache.invalidate(&(i % 3));
        }
        cache.run_pending_tasks();
        assert!(cache.weighted_size() <= 20);
    }
}

#[test]
fn one_notification_per_removal() {
    let mut cache = CacheBuilder::<u32, u32, _>::new(3)
        .time_to_live(Duration::from_secs(10))
        .build()
        .unwrap();
    let mut inserted = 0usize;
    for i in 0..6u32 {
        cache.insert(i, i);
        inserted += 1;
    }
    cache.insert(5, 50);
    inserted += 1;
    cache.invalidate(&4);
    cache.advance_time(Duration::from_secs(10));
    cache.run_pending_tasks();
    let notes = cache.take_notifications();
    assert_eq!(cache.len(), 0);
    assert_eq!(notes.len(), inserted);
    let c = causes(&notes);
    assert_eq!(c.iter().filter(|x| **x == RemovalCause::Size).count(), 3);
    assert_eq!(c.iter().filter(|x| **x == RemovalCause::Replaced).count(), 1);
    assert_eq!(c.iter().filter(|x| **x == RemovalCause::Explicit).count(), 1);
    assert_eq!(c.iter().filter(|x| **x == RemovalCause::Expired).count(), 2);
}

#[test]
fn zero_ttl_expires_on_next_maintenance() {
    let mut cache = CacheBuilder::new(10)
        .time_to_live(Duration::ZERO)
        .build()
        .unwrap();
    cache.insert(1, 1);
    cache.insert(2, 2);
    assert_eq!(cache.get(&1), None);
    cache.run_pending_tasks();
    assert_eq!(cache.len(), 0);
    assert_eq!(causes(&cache.take_notifications()), vec![RemovalCause::Expired; 2]);
}

#[test]
fn zero_tti_expires_on_next_maintenance() {
    let mut cache = CacheBuilder::new(10)
        .time_to_idle(Duration::ZERO)
        .build()
        .unwrap();
    cache.insert(1, 1);
    cache.run_pending_tasks();
    assert_eq!(cache.len(), 0);
    assert_eq!(causes(&cache.take_notifications()), vec![RemovalCause::Expired]);
}

#[test]
fn maintenance_keeps_live_entries_in_order() {
    let mut cache = CacheBuilder::new(10)
        .time_to_live(Duration::from_secs(30))
        .build()
        .unwrap();
    cache.insert(1, 1);
    cache.advance_time(Duration::from_secs(20));
    cache.insert(2, 2);
    cache.insert(3, 3);
    cache.advance_time(Duration::from_secs(15));
    cache.run_pending_tasks();
    assert_eq!(cache.len(), 2);
    let notes = cache.take_notifications();
    assert_eq!(notes.len(), 1);
    assert_eq!(notes[0].key, 1);
    assert_eq!(cache.get(&2), Some(&2));
    assert_eq!(cache.get(&3), Some(&3));
}

#[test]
fn advance_time_uses_nanoseconds() {
    let mut cache = CacheBuilder::new(10)
        .time_to_live(Duration::from_nanos(1_500))
        .build()
        .unwrap();
    cache.insert(1, 1);
    cache.advance_time(Duration::from_nanos(1_499));
    assert_eq!(cache.get(&1), Some(&1));
    cache.advance_time(Duration::from_nanos(1));
    assert_eq!(cache.get(&1), None);
}

#[test]
fn expired_entry_replaced_by_insert() {
    let mut cache = CacheBuilder::new(10)
        .time_to_live(Duration::from_secs(1))
        .build()
        .unwrap();
    cache.insert("k", 1);
    cache.advance_time(Duration::from_secs(2));
    cache.insert("k", 2);
    assert_eq!(cache.get(&"k"), Some(&2));
    let notes = cache.take_notifications();
    assert_eq!(notes.len(), 1);
    assert_eq!(notes[0].cause, RemovalCause::Replaced);
}

#[test]
fn take_notifications_drains() {
    let mut cache = CacheBuilder::new(1).build().unwrap();
    cache.insert(1, 1);
    cache.insert(2, 2);
    assert_eq!(cache.take_notifications().len(), 1);
    assert!(cache.take_notifications().is_empty());
}

#[test]
fn read_entries_are_protected_from_eviction() {
    let mut cache = CacheBuilder::new(3).build().unwrap();
    cache.insert(1, 1);
    assert_eq!(cache.get(&1), Some(&1));
    cache.insert(2, 2);
    cache.insert(3, 3);
    cache.insert(4, 4);
    let notes = cache.take_notifications();
    assert_eq!(notes.len(), 1);
    assert_eq!(notes[0].key, 2);
    assert_eq!(cache.get(&1), Some(&1));
}

#[test]
fn protected_entries_go_when_probation_is_empty() {
    let mut cache = CacheBuilder::new(2).build().unwrap();
    cache.insert(1, 1);
    cache.insert(2, 2);
    assert_eq!(cache.get(&2), Some(&2));
    assert_eq!(cache.get(&1), Some(&1));
    cache.insert(3, 3);
    let notes = cache.take_notifications();
    assert_eq!(notes.len(), 1);
    assert_eq!(notes[0].key, 2);
    assert_eq!(cache.len(), 2);
}

#[test]
fn protected_overflow_demotes_to_probation() {
    // Capacity 6 keeps the protected segment at 4.
    let mut cache = CacheBuilder::new(6).build().unwrap();
    for k in 1..=6u32 {
        cache.insert(k, k);
    }
    for k in 2..=5u32 {
        assert_eq!(cache.get(&k), Some(&k));
    }
    // Promoting 6 overflows the protected segment and demotes 2.
    assert_eq!(cache.get(&6), Some(&6));
    cache.insert(7, 7);
    cache.insert(8, 8);
    let keys: Vec<u32> = cache.take_notifications().iter().map(|n| n.key).collect();
    assert_eq!(keys, vec![1, 2]);
    assert_eq!(cache.get(&7), Some(&7));
    assert_eq!(cache.len(), 6);
}

#[test]
fn invalidate_expired_entry_reads_as_absent() {
    let mut cache = CacheBuilder::new(10)
        .time_to_live(Duration::from_secs(1))
        .build()
        .unwrap();
    cache.insert("k", 1);
    cache.advance_time(Duration::from_secs(2));
    assert!(!cache.invalidate(&"k"));
    assert!(!cache.invalidate(&"k"));
    assert!(cache.take_notifications().is_empty());
    cache.run_pending_tasks();
    assert_eq!(causes(&cache.take_notifications()), vec![RemovalCause::Expired]);
    assert_eq!(cache.len(), 0);
}

#[test]
fn refused_replacement_drops_prior_binding() {
    let mut cache = CacheBuilder::new(5).weigher(LengthWeigher).build().unwrap();
    cache.insert(1, "ab".to_string());
    cache.insert(1, "abcdef".to_string());
    assert_eq!(cache.get(&1), None);
    assert_eq!(cache.len(), 0);
    let notes = cache.take_notifications();
    assert_eq!(causes(&notes), vec![RemovalCause::Replaced, RemovalCause::Size]);
    assert_eq!(notes[0].value, "ab");
    assert_eq!(notes[1].value, "abcdef");
}

#[test]
fn default_weigher_weight_matches_len() {
    let mut cache = CacheBuilder::<u32, u32, _>::default().build().unwrap();
    for i in 0..10u32 {
        cache.insert(i, i);
    }
    cache.run_pending_tasks();
    assert_eq!(cache.len(), 10);
    assert_eq!(cache.weighted_size(), 10);
}
