use moka::{lifetime_error_nanos, BuildError, CacheBuilder};
use std::time::Duration;

#[test]
fn build_cache() {
    // Cache<char, &str>
    let mut cache = CacheBuilder::new(100).build().unwrap();

    assert_eq!(cache.max_capacity(), Some(100));
    assert_eq!(cache.time_to_live(), None);
    assert_eq!(cache.time_to_idle(), None);

    cache.insert('a', "Alice");
    assert_eq!(cache.get(&'a'), Some(&"Alice"));

    let mut cache = CacheBuilder::new(100)
        .time_to_live(Duration::from_secs(45 * 60))
        .time_to_idle(Duration::from_secs(15 * 60))
        .build()
        .unwrap();

    assert_eq!(cache.max_capacity(), Some(100));
    assert_eq!(cache.time_to_live(), Some(Duration::from_secs(45 * 60)));
    assert_eq!(cache.time_to_idle(), Some(Duration::from_secs(15 * 60)));

    cache.insert('a', "Alice");
    assert_eq!(cache.get(&'a'), Some(&"Alice"));
}

#[test]
#[should_panic(expected = "time_to_live is longer than 1000 years")]
fn build_cache_too_long_ttl() {
    let thousand_years_secs: u64 = 1000 * 365 * 24 * 3600;
    let builder: CacheBuilder<char, String, _> = CacheBuilder::new(100);
    let duration = Duration::from_secs(thousand_years_secs);
    let built = builder.time_to_live(duration + Duration::from_secs(1)).build();
    if let Err(e) = built {
        panic!("{}", e.message());
    }
}

#[test]
#[should_panic(expected = "time_to_idle is longer than 1000 years")]
fn build_cache_too_long_tti() {
    let thousand_years_secs: u64 = 1000 * 365 * 24 * 3600;
    let builder: CacheBuilder<char, String, _> = CacheBuilder::new(100);
    let duration = Duration::from_secs(thousand_years_secs);
    let built = builder.time_to_idle(duration + Duration::from_secs(1)).build();
    if let Err(e) = built {
        panic!("{}", e.message());
    }
}

#[test]
fn builder_accepts_exactly_thousand_years() {
    let thousand_years = Duration::from_secs(1000 * 365 * 24 * 3600);
    let built = CacheBuilder::<char, String, _>::new(10)
        .time_to_live(thousand_years)
        .time_to_idle(thousand_years)
        .build();
    assert!(built.is_ok());
}

#[test]
fn builder_refuses_thousand_years_and_one_nanosecond() {
    let too_long = Duration::from_secs(1000 * 365 * 24 * 3600) + Duration::from_nanos(1);
    let built = CacheBuilder::<char, String, _>::new(10).time_to_idle(too_long).build();
    assert_eq!(built.err(), Some(BuildError::TimeToIdleTooLong));
}

#[test]
fn builder_reports_ttl_before_tti() {
    let too_long = Duration::from_secs(1001 * 365 * 24 * 3600);
    let built = CacheBuilder::<char, String, _>::new(10)
        .time_to_idle(too_long)
        .time_to_live(too_long)
        .build();
    let err = built.err().unwrap();
    assert_eq!(err, BuildError::TimeToLiveTooLong);
    assert!(err.message().contains("time_to_live"));
}

#[test]
fn builder_validation_scenario_1001_years() {
    let built = CacheBuilder::<&str, &str, _>::new(100)
        .time_to_live(Duration::from_secs(1001 * 365 * 24 * 3600))
        .build();
    match built {
        Err(e) => {
            assert_eq!(e, BuildError::TimeToLiveTooLong);
            assert!(e.message().contains("time_to_live"));
        }
        Ok(_) => panic!("a 1001-year time to live was accepted"),
    }
}

#[test]
fn build_with_hasher_keeps_settings() {
    let cache = CacheBuilder::<u32, u32, _>::default()
        .max_capacity(7)
        .initial_capacity(3)
        .time_to_live(Duration::from_secs(5))
        .build_with_hasher(std::collections::hash_map::RandomState::new())
        .unwrap();
    assert_eq!(cache.max_capacity(), Some(7));
    assert_eq!(cache.time_to_live(), Some(Duration::from_secs(5)));
    assert_eq!(cache.time_to_idle(), None);
    assert_eq!(cache.len(), 0);
    assert_eq!(cache.weighted_size(), 0);
}

#[test]
fn default_builder_is_unbounded() {
    let mut cache = CacheBuilder::<u32, u32, _>::default().build().unwrap();
    assert_eq!(cache.max_capacity(), None);
    for i in 0..1000u32 {
        cache.insert(i, i);
    }
    cache.run_pending_tasks();
    assert_eq!(cache.len(), 1000);
    assert!(cache.take_notifications().is_empty());
}

#[test]
fn lifetime_check_in_nanoseconds() {
    let thousand_years: u128 = 1000 * 365 * 24 * 3600 * 1_000_000_000;
    let year: u128 = 365 * 24 * 3600 * 1_000_000_000;
    assert_eq!(lifetime_error_nanos(Some(thousand_years), None), None);
    assert_eq!(
        lifetime_error_nanos(Some(thousand_years + year), None),
        Some(BuildError::TimeToLiveTooLong)
    );
    assert_eq!(
        lifetime_error_nanos(None, Some(thousand_years + 1)),
        Some(BuildError::TimeToIdleTooLong)
    );
    assert_eq!(
        lifetime_error_nanos(Some(thousand_years + 1), Some(thousand_years + 1)),
        Some(BuildError::TimeToLiveTooLong)
    );
    assert_eq!(lifetime_error_nanos(None, None), None);
}
