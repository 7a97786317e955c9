//! A single-threaded, bounded key/value cache with weight-based eviction,
//! time-to-live and time-to-idle expiration, and removal notifications.

mod builder;
mod cache;
mod entry;
mod laws;
mod time;

pub use builder::{
    lifetime_error, lifetime_error_nanos, lifetime_error_of_nanos, BuildError, CacheBuilder,
};
pub use cache::{effective_weight, lifetime_nanos, Cache, UnitWeigher, Weigher};
pub use entry::{
    demote_once, demote_steps, demoted, expired_entries, first_protected, index_of, is_expired,
    keys_unique, live_entries, note_of, notes_of, protected_capacity, protected_count,
    protected_weight, survivors, total_weight, victim_index, victims, Entry, Notification,
    RemovalCause, MAX_WEIGHT,
};
pub use laws::{
    law_admission_boundary, law_capacity_after_maintenance, law_empty_after_invalidate_all,
    law_expired_after_ttl, law_get_after_insert, law_get_after_invalidate,
    law_invalidate_absent_is_noop, law_one_notification_per_expiry,
    law_one_notification_per_insert_removal, law_reinsert_notifies_replaced,
    law_zero_lifetime_expires_all, lemma_live_expired_partition,
};
pub use time::{exceeds_max_lifetime, nanos_of, MAX_LIFETIME_NANOS};
