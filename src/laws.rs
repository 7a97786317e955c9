use crate::cache::{effective_weight, Cache, Weigher};
use crate::entry::{
    expired_entries, index_of, is_expired, lemma_eviction_splits, lemma_index_of_present,
    lemma_keys_unique_remove, live_entries, note_of, notes_of, total_weight, Entry,
    Notification, RemovalCause,
};
use crate::time::nanos_of;
use std::time::Duration;
use vstd::prelude::*;

verus! {

/// Every entry leaves a sequence either as live or as expired.
pub proof fn lemma_live_expired_partition<K, V>(
    s: Seq<Entry<K, V>>,
    ttl: Option<u128>,
    tti: Option<u128>,
    now: u128,
)
    ensures
        live_entries(s, ttl, tti, now).len() + expired_entries(s, ttl, tti, now).len() == s.len(),
        forall|j: int|
            0 <= j < expired_entries(s, ttl, tti, now).len() ==> is_expired(
                #[trigger] expired_entries(s, ttl, tti, now)[j],
                ttl,
                tti,
                now,
            ),
    decreases s.len(),
{
    if s.len() > 0 {
        lemma_live_expired_partition(s.drop_first(), ttl, tti, now);
        let rest = expired_entries(s.drop_first(), ttl, tti, now);
        if is_expired(s[0], ttl, tti, now) {
            assert forall|j: int| 0 <= j < rest.len() + 1 implies is_expired(
                #[trigger] (seq![s[0]] + rest)[j],
                ttl,
                tti,
                now,
            ) by {
                if j > 0 {
                    assert((seq![s[0]] + rest)[j] == rest[j - 1]);
                }
            }
        }
    }
}

/// After the maintenance pass, the total weight of the entries is within the
/// capacity.
pub proof fn law_capacity_after_maintenance<K: PartialEq, V, S, W: Weigher<K, V>>(
    c: &Cache<K, V, S, W>,
    after: &Cache<K, V, S, W>,
)
    requires
        c.wf(),
        after.wf(),
        c.maintained(after),
        after.same_settings(c),
    ensures
        match c.capacity() {
            Some(cap) => total_weight(after.entries()) <= cap,
            None => true,
        },
{
    after.lemma_wf_entries();
}

/// The maintenance pass sends exactly one notification, with the cause
/// `Expired`, for each entry it removes.
pub proof fn law_one_notification_per_expiry<K: PartialEq, V, S, W: Weigher<K, V>>(
    c: &Cache<K, V, S, W>,
    after: &Cache<K, V, S, W>,
)
    requires
        c.wf(),
        c.maintained(after),
    ensures
        after.pending_notes().len() - c.pending_notes().len() == c.entries().len()
            - after.entries().len(),
        forall|j: int|
            c.pending_notes().len() <= j < after.pending_notes().len()
                ==> #[trigger] after.pending_notes()[j].cause == RemovalCause::Expired,
{
    lemma_live_expired_partition(c.entries(), c.ttl(), c.tti(), c.clock());
}

/// An insert sends exactly one notification for each entry it removes or
/// refuses: the new entry counts as one entry in, and every entry out is one
/// notification, with the cause `Replaced` or `Size`.
pub proof fn law_one_notification_per_insert_removal<K: PartialEq, V, S, W: Weigher<K, V>>(
    c: &Cache<K, V, S, W>,
    after: &Cache<K, V, S, W>,
    key: K,
    value: V,
    weight: u64,
)
    requires
        c.wf(),
        c.inserted(after, key, value, weight),
    ensures
        after.entries().len() + (after.pending_notes().len() - c.pending_notes().len()) == c.entries().len()
            + 1,
        forall|j: int|
            c.pending_notes().len() <= j < after.pending_notes().len() ==> {
                ||| #[trigger] after.pending_notes()[j].cause == RemovalCause::Replaced
                ||| after.pending_notes()[j].cause == RemovalCause::Size
            },
{
    let w = effective_weight(weight);
    if !c.refuses(w) {
        let base = c.without_key(key);
        let r = c.replaced_notes(key);
        let sz = notes_of(c.room_evicted(base, w), RemovalCause::Size);
        let l0 = c.pending_notes();
        if let Some(cap) = c.capacity() {
            lemma_eviction_splits(base, (cap - w) as nat);
        }
        assert forall|j: int| l0.len() <= j < after.pending_notes().len() implies {
            ||| #[trigger] after.pending_notes()[j].cause == RemovalCause::Replaced
            ||| after.pending_notes()[j].cause == RemovalCause::Size
        } by {
            if j >= l0.len() + r.len() {
                assert(after.pending_notes()[j] == sz[j - l0.len() - r.len()]);
            } else {
                assert(after.pending_notes()[j] == r[j - l0.len()]);
            }
        }
    }
}

/// At the same logical time, a read right after an insert returns the value
/// inserted, unless the entry was refused for its weight or a lifetime of
/// zero expires it at once.
pub proof fn law_get_after_insert<K: PartialEq, V, S, W: Weigher<K, V>>(
    c: &Cache<K, V, S, W>,
    after: &Cache<K, V, S, W>,
    key: K,
    value: V,
    weight: u64,
)
    requires
        c.wf(),
        after.wf(),
        after.same_settings(c),
        c.inserted(after, key, value, weight),
        !c.refuses(effective_weight(weight)),
        c.ttl() != Some(0u128),
        c.tti() != Some(0u128),
    ensures
        after.lookup(key) == Some(value),
{
    let w = effective_weight(weight);
    let s = after.entries();
    let j = s.len() - 1;
    assert(s[j] == c.fresh_entry(key, value, w));
    after.lemma_wf_entries();
    lemma_index_of_present(s, j);
}

/// At the same logical time, a read right after an invalidation of the same
/// key finds nothing.
pub proof fn law_get_after_invalidate<K: PartialEq, V, S, W: Weigher<K, V>>(
    c: &Cache<K, V, S, W>,
    after: &Cache<K, V, S, W>,
    key: K,
    r: bool,
)
    requires
        c.wf(),
        c.invalidated(after, key, r),
        after.same_settings(c),
    ensures
        after.lookup(key) == None::<V>,
{
    let s = c.entries();
    let i = index_of(s, key);
    c.lemma_wf_entries();
    if c.lookup(key) is Some {
        assert(s[i].key == key);
        lemma_keys_unique_remove(s, i);
        assert(!exists|j: int| 0 <= j < after.entries().len() && after.entries()[j].key == key);
    }
}

/// Once the clock has moved on by at least the time to live, every key that
/// was inserted before reads as absent.
pub proof fn law_expired_after_ttl<K: PartialEq, V, S, W: Weigher<K, V>>(
    c: &Cache<K, V, S, W>,
    after: &Cache<K, V, S, W>,
    d: Duration,
    key: K,
)
    requires
        c.wf(),
        c.advanced(after, d),
        c.ttl() is Some,
        nanos_of(d) >= c.ttl()->0,
        c.clock() + nanos_of(d) <= u128::MAX,
    ensures
        after.lookup(key) == None::<V>,
{
    c.lemma_wf_entries();
    let s = c.entries();
    let i = index_of(s, key);
    if i >= 0 {
        let e = s[i];
        assert(1 <= s[i].weight);
        assert(e.inserted_at <= c.clock());
        assert(after.ttl() == c.ttl());
        assert(after.expired(e));
    }
}

/// After `invalidate_all`, the cache holds no entry.
pub proof fn law_empty_after_invalidate_all<K: PartialEq, V, S, W: Weigher<K, V>>(
    c: &Cache<K, V, S, W>,
    after: &Cache<K, V, S, W>,
)
    requires
        c.wf(),
        c.cleared(after),
    ensures
        after.entries().len() == 0,
{
}

/// Invalidating an absent key, once or again, changes nothing and sends no
/// notification. A key whose entry has expired counts as absent.
pub proof fn law_invalidate_absent_is_noop<K: PartialEq, V, S, W: Weigher<K, V>>(
    c: &Cache<K, V, S, W>,
    once: &Cache<K, V, S, W>,
    twice: &Cache<K, V, S, W>,
    key: K,
    r1: bool,
    r2: bool,
)
    requires
        c.wf(),
        c.lookup(key) is None,
        c.invalidated(once, key, r1),
        once.same_settings(c),
        once.invalidated(twice, key, r2),
    ensures
        !r1,
        !r2,
        twice.entries() == c.entries(),
        twice.pending_notes() == c.pending_notes(),
{
}

/// Inserting a key that is already present sends exactly one `Replaced`
/// notification, for the prior entry, and it comes first, whether or not the
/// new entry is admitted; inserting an absent key sends none.
pub proof fn law_reinsert_notifies_replaced<K: PartialEq, V, S, W: Weigher<K, V>>(
    c: &Cache<K, V, S, W>,
    after: &Cache<K, V, S, W>,
    key: K,
    value: V,
    weight: u64,
)
    requires
        c.wf(),
        c.inserted(after, key, value, weight),
    ensures
        forall|j: int|
            c.pending_notes().len() <= j < after.pending_notes().len() ==> (
            #[trigger] after.pending_notes()[j].cause == RemovalCause::Replaced <==> (index_of(
                c.entries(),
                key,
            ) >= 0 && j == c.pending_notes().len())),
        index_of(c.entries(), key) >= 0 ==> after.pending_notes()[c.pending_notes().len() as int]
            == note_of(c.entries()[index_of(c.entries(), key)], RemovalCause::Replaced),
{
    let w = effective_weight(weight);
    let base = c.without_key(key);
    let r = c.replaced_notes(key);
    let sz = notes_of(c.room_evicted(base, w), RemovalCause::Size);
    let l0 = c.pending_notes();
    assert forall|j: int| l0.len() <= j < after.pending_notes().len() implies (
    #[trigger] after.pending_notes()[j].cause == RemovalCause::Replaced <==> (index_of(
        c.entries(),
        key,
    ) >= 0 && j == l0.len())) by {
        if c.refuses(w) && j == l0.len() + r.len() {
            assert(after.pending_notes()[j].cause == RemovalCause::Size);
        } else if j >= l0.len() + r.len() {
            assert(after.pending_notes()[j] == sz[j - l0.len() - r.len()]);
        } else {
            assert(after.pending_notes()[j] == r[j - l0.len()]);
        }
    }
    if index_of(c.entries(), key) >= 0 {
        assert(after.pending_notes()[l0.len() as int] == r[0]);
    }
}

/// An entry whose weight is at most the capacity, the capacity itself
/// included, is admitted and stays; a heavier one is refused with a `Size`
/// notification and the entries do not change.
pub proof fn law_admission_boundary<K: PartialEq, V, S, W: Weigher<K, V>>(
    c: &Cache<K, V, S, W>,
    after: &Cache<K, V, S, W>,
    key: K,
    value: V,
    weight: u64,
)
    requires
        c.wf(),
        c.inserted(after, key, value, weight),
        c.capacity() is Some,
    ensures
        effective_weight(weight) <= c.capacity()->0 ==> after.entries().len() > 0 && after.entries().last()
            == (Entry {
            key,
            value,
            inserted_at: c.clock(),
            accessed_at: c.clock(),
            weight: effective_weight(weight),
            protected: false,
        }),
        effective_weight(weight) > c.capacity()->0 ==> {
            &&& after.entries() == c.without_key(key)
            &&& after.pending_notes() == (c.pending_notes() + c.replaced_notes(key)).push(
                (Notification { key, value, cause: RemovalCause::Size }),
            )
        },
{
    let w = effective_weight(weight);
    if !c.refuses(w) {
        assert(after.entries().last() == c.fresh_entry(key, value, w));
    }
}

/// With a time to live or a time to idle of zero, the next maintenance pass
/// removes every entry.
pub proof fn law_zero_lifetime_expires_all<K: PartialEq, V, S, W: Weigher<K, V>>(
    c: &Cache<K, V, S, W>,
    after: &Cache<K, V, S, W>,
)
    requires
        c.wf(),
        c.maintained(after),
        c.ttl() == Some(0u128) || c.tti() == Some(0u128),
    ensures
        after.entries().len() == 0,
{
    c.lemma_wf_entries();
    let s = c.entries();
    assert forall|i: int| 0 <= i < s.len() implies #[trigger] is_expired(
        s[i],
        c.ttl(),
        c.tti(),
        c.clock(),
    ) by {
        assert(1 <= s[i].weight);
    }
    lemma_all_expired(s, c.ttl(), c.tti(), c.clock());
}

proof fn lemma_all_expired<K, V>(s: Seq<Entry<K, V>>, ttl: Option<u128>, tti: Option<u128>, now: u128)
    requires
        forall|i: int| 0 <= i < s.len() ==> #[trigger] is_expired(s[i], ttl, tti, now),
    ensures
        live_entries(s, ttl, tti, now).len() == 0,
    decreases s.len(),
{
    if s.len() > 0 {
        assert(is_expired(s[0], ttl, tti, now));
        assert forall|i: int| 0 <= i < s.drop_first().len() implies #[trigger] is_expired(
            s.drop_first()[i],
            ttl,
            tti,
            now,
        ) by {
            assert(s.drop_first()[i] == s[i + 1]);
        }
        lemma_all_expired(s.drop_first(), ttl, tti, now);
    }
}

} // verus!
