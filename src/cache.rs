use crate::entry::{
    demote_steps, demoted, first_protected, lemma_demote_at, protected_count, lemma_first_protected_is_first,
    lemma_protected_count_bound, lemma_protected_weight_bound, lemma_unprotected_weightless, protected_capacity,
    protected_weight, expired_entries, index_of, is_expired, keys_unique,
    lemma_survivors_without_key, lemma_victim_index_all_protected, lemma_victim_index_in_range,
    lemma_victim_index_is_first_probation, survivors,
    victim_index, victims, lemma_index_of_present, lemma_keys_unique_push,
    lemma_keys_unique_remove, lemma_total_weight_bound, lemma_total_weight_push,
    lemma_total_weight_remove, live_entries, note_of, notes_of, total_weight, Entry, Notification,
    RemovalCause, MAX_WEIGHT,
};
use crate::time::{duration_nanos, nanos_of};
use std::time::Duration;
use vstd::laws_eq::obeys_concrete_eq;
use vstd::prelude::*;

verus! {

/// Computes the weight of an entry before it is admitted. A weight of 0 is
/// taken as 1. `weigh` must be a pure function of its arguments; an
/// implementation written outside verified code gives `spec_weigh` the same
/// result as `weigh`.
pub trait Weigher<K, V> {
    /// The weight this weigher gives `value` stored under `key`.
    spec fn spec_weigh(&self, key: K, value: V) -> u64;

    fn weigh(&self, key: &K, value: &V) -> (r: u64)
        ensures
            r == self.spec_weigh(*key, *value),
    ;
}

/// The weigher that gives every entry the weight 1, so that the capacity
/// bounds the number of entries.
#[derive(Clone, Copy, Debug)]
pub struct UnitWeigher;

impl<K, V> Weigher<K, V> for UnitWeigher {
    open spec fn spec_weigh(&self, key: K, value: V) -> u64 {
        1
    }

    fn weigh(&self, _key: &K, _value: &V) -> (r: u64) {
        1
    }
}

/// The weight an entry gets when the weigher returns `w`.
pub open spec fn effective_weight(w: u64) -> u64 {
    if w == 0 {
        1
    } else {
        w
    }
}

/// The lifetime in nanoseconds that an optional duration stands for.
pub open spec fn lifetime_nanos(d: Option<Duration>) -> Option<u128> {
    match d {
        Some(d) => Some(nanos_of(d) as u128),
        None => None,
    }
}

/// A single-threaded cache under a segmented LRU policy. Entries are kept from
/// least to most recently used; each is on probation until it is read, which
/// moves it to the protected segment. The protected segment keeps to four
/// fifths of the capacity by sending its least recently used entries back to
/// probation, and eviction takes probation entries before protected ones.
/// Time is a logical clock in nanoseconds that only `advance_time` moves.
pub struct Cache<K, V, S, W> {
    max_capacity: Option<usize>,
    build_hasher: S,
    weigher: W,
    time_to_live: Option<Duration>,
    time_to_idle: Option<Duration>,
    ttl_nanos: Option<u128>,
    tti_nanos: Option<u128>,
    entries: Vec<Entry<K, V>>,
    weighted: u128,
    now: u128,
    notifications: Vec<Notification<K, V>>,
}

impl<K: PartialEq, V, S, W: Weigher<K, V>> Cache<K, V, S, W> {
    /// The entries, from least to most recently used.
    pub closed spec fn entries(&self) -> Seq<Entry<K, V>> {
        self.entries@
    }

    /// The notifications not yet taken, oldest first.
    pub closed spec fn pending_notes(&self) -> Seq<Notification<K, V>> {
        self.notifications@
    }

    /// The current logical time in nanoseconds.
    pub closed spec fn clock(&self) -> u128 {
        self.now
    }

    /// The weigher the cache was built with.
    pub closed spec fn weigher_setting(&self) -> W {
        self.weigher
    }

    /// The bound on the total weight of the entries, if any.
    pub closed spec fn capacity(&self) -> Option<usize> {
        self.max_capacity
    }

    /// The time to live the cache was built with.
    pub closed spec fn ttl_setting(&self) -> Option<Duration> {
        self.time_to_live
    }

    /// The time to idle the cache was built with.
    pub closed spec fn tti_setting(&self) -> Option<Duration> {
        self.time_to_idle
    }

    /// The time to live in nanoseconds.
    pub open spec fn ttl(&self) -> Option<u128> {
        lifetime_nanos(self.ttl_setting())
    }

    /// The time to idle in nanoseconds.
    pub open spec fn tti(&self) -> Option<u128> {
        lifetime_nanos(self.tti_setting())
    }

    /// Whether `e` is expired at the cache's current time.
    pub open spec fn expired(&self, e: Entry<K, V>) -> bool {
        is_expired(e, self.ttl(), self.tti(), self.clock())
    }

    /// The value a read of `k` would see now, if any.
    pub open spec fn lookup(&self, k: K) -> Option<V> {
        let i = index_of(self.entries(), k);
        if i < 0 || self.expired(self.entries()[i]) {
            None
        } else {
            Some(self.entries()[i].value)
        }
    }

    /// The configuration and the clock are those of `other`.
    pub open spec fn same_settings(&self, other: &Self) -> bool {
        &&& self.capacity() == other.capacity()
        &&& self.weigher_setting() == other.weigher_setting()
        &&& self.ttl_setting() == other.ttl_setting()
        &&& self.tti_setting() == other.tti_setting()
        &&& self.clock() == other.clock()
    }

    /// What `invalidate` of `key` returning `r` does: a live entry for `key`
    /// leaves with an `Explicit` notification, and `r` says whether there was
    /// one. An expired entry reads as absent: it stays, for the next
    /// `run_pending_tasks` to remove with an `Expired` notification.
    pub open spec fn invalidated(&self, after: &Self, key: K, r: bool) -> bool {
        let i = index_of(self.entries(), key);
        if self.lookup(key) is Some {
            &&& r
            &&& after.entries() == self.entries().remove(i)
            &&& after.pending_notes() == self.pending_notes().push(
                note_of(self.entries()[i], RemovalCause::Explicit),
            )
        } else {
            &&& !r
            &&& after.entries() == self.entries()
            &&& after.pending_notes() == self.pending_notes()
        }
    }

    /// What `invalidate_all` does: every entry leaves, with an `Explicit`
    /// notification each, from the least to the most recently used.
    pub open spec fn cleared(&self, after: &Self) -> bool {
        &&& after.entries() == Seq::<Entry<K, V>>::empty()
        &&& after.pending_notes() == self.pending_notes() + notes_of(
            self.entries(),
            RemovalCause::Explicit,
        )
    }

    /// What `run_pending_tasks` does: the expired entries leave, with an
    /// `Expired` notification each, and the live ones keep their order.
    pub open spec fn maintained(&self, after: &Self) -> bool {
        &&& after.entries() == live_entries(self.entries(), self.ttl(), self.tti(), self.clock())
        &&& after.pending_notes() == self.pending_notes() + notes_of(
            expired_entries(self.entries(), self.ttl(), self.tti(), self.clock()),
            RemovalCause::Expired,
        )
    }

    /// What `advance_time` by `d` does: the clock moves forward by `d`,
    /// stopping at the largest `u128`; nothing else changes.
    pub open spec fn advanced(&self, after: &Self, d: Duration) -> bool {
        &&& after.clock() == if self.clock() + nanos_of(d) > u128::MAX {
            u128::MAX as int
        } else {
            self.clock() + nanos_of(d)
        }
        &&& after.capacity() == self.capacity()
        &&& after.ttl_setting() == self.ttl_setting()
        &&& after.tti_setting() == self.tti_setting()
        &&& after.entries() == self.entries()
        &&& after.pending_notes() == self.pending_notes()
    }

    /// What the invariant says of the entries: keys are unique, weights are
    /// at least 1, timestamps are not in the future, and the total weight is
    /// within the capacity.
    pub proof fn lemma_wf_entries(&self)
        requires
            self.wf(),
        ensures
            keys_unique(self.entries()),
            forall|i: int|
                0 <= i < self.entries().len() ==> {
                    &&& 1 <= #[trigger] self.entries()[i].weight
                    &&& self.entries()[i].inserted_at <= self.clock()
                    &&& self.entries()[i].accessed_at <= self.clock()
                },
            self.within_capacity(),
    {
    }

    /// The total weight of the entries is within the capacity.
    pub open spec fn within_capacity(&self) -> bool {
        match self.capacity() {
            Some(c) => total_weight(self.entries()) <= c,
            None => true,
        }
    }

    /// Everything but the capacity bound.
    closed spec fn wf_core(&self) -> bool {
        &&& obeys_concrete_eq::<K>()
        &&& self.ttl_nanos == lifetime_nanos(self.time_to_live)
        &&& self.tti_nanos == lifetime_nanos(self.time_to_idle)
        &&& keys_unique(self.entries@)
        &&& forall|i: int|
            0 <= i < self.entries@.len() ==> {
                &&& 1 <= #[trigger] self.entries@[i].weight
                &&& self.entries@[i].inserted_at <= self.now
                &&& self.entries@[i].accessed_at <= self.now
            }
        &&& self.weighted == total_weight(self.entries@)
    }

    proof fn lemma_wf_core_intro(&self)
        requires
            obeys_concrete_eq::<K>(),
            self.ttl_nanos == lifetime_nanos(self.time_to_live),
            self.tti_nanos == lifetime_nanos(self.time_to_idle),
            keys_unique(self.entries@),
            forall|i: int|
                0 <= i < self.entries@.len() ==> {
                    &&& 1 <= #[trigger] self.entries@[i].weight
                    &&& self.entries@[i].inserted_at <= self.now
                    &&& self.entries@[i].accessed_at <= self.now
                },
            self.weighted == total_weight(self.entries@),
        ensures
            self.wf_core(),
    {
    }

    /// The cache's invariant.
    pub closed spec fn wf(&self) -> bool {
        &&& self.wf_core()
        &&& self.within_capacity()
    }

    pub(crate) fn with_everything(
        max_capacity: Option<usize>,
        initial_capacity: Option<usize>,
        build_hasher: S,
        weigher: W,
        time_to_live: Option<Duration>,
        time_to_idle: Option<Duration>,
    ) -> (r: Self)
        requires
            obeys_concrete_eq::<K>(),
        ensures
            r.wf(),
            r.entries() == Seq::<Entry<K, V>>::empty(),
            r.pending_notes() == Seq::<Notification<K, V>>::empty(),
            r.clock() == 0,
            r.capacity() == max_capacity,
            r.weigher_setting() == weigher,
            r.ttl_setting() == time_to_live,
            r.tti_setting() == time_to_idle,
    {
        let ttl_nanos = match &time_to_live {
            Some(d) => Some(duration_nanos(d)),
            None => None,
        };
        let tti_nanos = match &time_to_idle {
            Some(d) => Some(duration_nanos(d)),
            None => None,
        };
        let entries = match initial_capacity {
            Some(n) => Vec::with_capacity(n),
            None => Vec::new(),
        };
        Cache {
            max_capacity,
            build_hasher,
            weigher,
            time_to_live,
            time_to_idle,
            ttl_nanos,
            tti_nanos,
            entries,
            weighted: 0,
            now: 0,
            notifications: Vec::new(),
        }
    }

    /// The position of the entry for `key`.
    fn find(&self, key: &K) -> (r: Option<usize>)
        requires
            self.wf_core(),
        ensures
            match r {
                Some(i) => i < self.entries().len() && i == index_of(self.entries(), *key),
                None => index_of(self.entries(), *key) == -1,
            },
    {
        let mut i: usize = 0;
        while i < self.entries.len()
            invariant
                self.wf_core(),
                i <= self.entries@.len(),
                forall|j: int| 0 <= j < i ==> self.entries@[j].key != *key,
            decreases self.entries@.len() - i,
        {
            let same = self.entries[i].key.eq(key);
            proof {
                reveal(obeys_concrete_eq);
                assert(same == (self.entries@[i as int].key == *key));
            }
            if same {
                proof {
                    let s = self.entries@;
                    let j = choose|j: int| 0 <= j < s.len() && s[j].key == *key;
                    assert(s[j].key == *key);
                    assert(j == i as int);
                }
                return Some(i);
            }
            i = i + 1;
        }
        None
    }

    /// Whether `e` is expired now, computed.
    fn entry_expired(&self, e: &Entry<K, V>) -> (r: bool)
        requires
            self.wf_core(),
            e.inserted_at <= self.now,
            e.accessed_at <= self.now,
        ensures
            r == self.expired(*e),
    {
        let by_ttl = match self.ttl_nanos {
            Some(t) => self.now - e.inserted_at >= t,
            None => false,
        };
        let by_tti = match self.tti_nanos {
            Some(t) => self.now - e.accessed_at >= t,
            None => false,
        };
        by_ttl || by_tti
    }

    /// The room the protected segment keeps for an entry of weight `w`.
    pub open spec fn protected_budget(&self, w: u64) -> nat {
        match self.capacity() {
            Some(c) => if protected_capacity(c as nat) >= w {
                (protected_capacity(c as nat) - w) as nat
            } else {
                0
            },
            None => 0,
        }
    }

    /// `s` after making room in the protected segment for an entry of
    /// weight `w`; with no capacity the protected segment is unbounded.
    pub open spec fn rebalanced(&self, s: Seq<Entry<K, V>>, w: u64) -> Seq<Entry<K, V>> {
        match self.capacity() {
            Some(c) => demoted(s, self.protected_budget(w)),
            None => s,
        }
    }

    /// The weight of the protected segment, computed.
    fn protected_weight_now(&self) -> (r: u128)
        requires
            self.wf_core(),
        ensures
            r == protected_weight(self.entries@),
    {
        let ghost s = self.entries@;
        let mut sum: u128 = 0;
        let mut i: usize = 0;
        while i < self.entries.len()
            invariant
                s == self.entries@,
                i <= s.len(),
                sum == protected_weight(s.subrange(0, i as int)),
            decreases s.len() - i,
        {
            proof {
                assert(s.subrange(0, i + 1).drop_last() =~= s.subrange(0, i as int));
                lemma_protected_weight_bound(s.subrange(0, i + 1));
                assert(protected_weight(s.subrange(0, i + 1)) <= (i + 1) * (MAX_WEIGHT as nat));
            }
            if self.entries[i].protected {
                sum = sum + self.entries[i].weight as u128;
            }
            i = i + 1;
        }
        assert(s.subrange(0, s.len() as int) =~= s);
        sum
    }

    /// The position of the least recently used protected entry.
    fn first_protected_index(&self) -> (r: usize)
        requires
            protected_weight(self.entries@) > 0,
        ensures
            r < self.entries@.len(),
            r == first_protected(self.entries@),
            self.entries@[r as int].protected,
    {
        let mut i: usize = 0;
        while i < self.entries.len()
            invariant
                i <= self.entries@.len(),
                forall|j: int| 0 <= j < i ==> !#[trigger] self.entries@[j].protected,
            decreases self.entries@.len() - i,
        {
            if self.entries[i].protected {
                proof {
                    lemma_first_protected_is_first(self.entries@, i as int);
                }
                return i;
            }
            i = i + 1;
        }
        proof {
            lemma_unprotected_weightless(self.entries@);
        }
        0
    }

    /// Demotes protected entries, least recently used first, to the most
    /// recently used end of probation until the protected segment weighs at
    /// most `budget`. No entry for `key` is there before or after.
    fn demote_until(&mut self, budget: u128, key: Ghost<K>)
        requires
            old(self).wf_core(),
            forall|j: int| 0 <= j < old(self).entries@.len() ==> #[trigger] old(self).entries@[j].key != key@,
        ensures
            final(self).wf_core(),
            final(self).same_settings(&*old(self)),
            final(self).entries() == demoted(old(self).entries(), budget as nat),
            final(self).entries().len() == old(self).entries().len(),
            final(self).weighted == old(self).weighted,
            final(self).pending_notes() == old(self).pending_notes(),
            forall|j: int| 0 <= j < final(self).entries@.len() ==> #[trigger] final(self).entries@[j].key != key@,
    {
        let ghost s = self.entries@;
        let ghost start = *self;
        let ghost mut n: nat = s.len();
        let mut pw = self.protected_weight_now();
        proof {
            lemma_protected_count_bound(s);
        }
        while pw > budget
            invariant
                self.wf_core(),
                self.same_settings(&start),
                self.notifications@ == start.notifications@,
                self.weighted == start.weighted,
                pw == protected_weight(self.entries@),
                self.entries@.len() == s.len(),
                demote_steps(self.entries@, budget as nat, n) == demote_steps(s, budget as nat, s.len()),
                protected_count(self.entries@) <= n,
                forall|j: int| 0 <= j < self.entries@.len() ==> #[trigger] self.entries@[j].key != key@,
            decreases protected_count(self.entries@),
        {
            let ghost cur = self.entries@;
            let i = self.first_protected_index();
            let mut e = self.entries.remove(i);
            e.protected = false;
            proof {
                lemma_demote_at(cur, i as int);
                lemma_keys_unique_remove(cur, i as int);
                lemma_keys_unique_push(cur.remove(i as int), e);
                lemma_total_weight_remove(cur, i as int);
                lemma_total_weight_push(cur.remove(i as int), e);
                n = (n - 1) as nat;
            }
            let w = e.weight;
            self.entries.push(e);
            pw = pw - w as u128;
            proof {
                let now_s = self.entries@;
                assert(now_s == cur.remove(i as int).push(Entry { protected: false, ..cur[i as int] }));
                assert forall|j: int| 0 <= j < now_s.len() implies {
                    &&& 1 <= #[trigger] now_s[j].weight
                    &&& now_s[j].inserted_at <= self.now
                    &&& now_s[j].accessed_at <= self.now
                    &&& now_s[j].key != key@
                } by {
                    if j < i {
                        assert(now_s[j] == cur[j]);
                        assert(1 <= cur[j].weight);
                    } else if j < now_s.len() - 1 {
                        assert(now_s[j] == cur[j + 1]);
                        assert(1 <= cur[j + 1].weight);
                    } else {
                        assert(1 <= cur[i as int].weight);
                    }
                }
                assert(obeys_concrete_eq::<K>());
                assert(self.ttl_nanos == lifetime_nanos(self.time_to_live));
                assert(self.tti_nanos == lifetime_nanos(self.time_to_idle));
            }
        }
    }

    /// Looks up `key`. A live entry is marked as just read and joins the
    /// protected segment at its most recently used end, once that segment has
    /// made room for it by demoting its least recently used entries; an
    /// expired one reads as absent and stays until the next
    /// `run_pending_tasks`.
    pub fn get(&mut self, key: &K) -> (r: Option<&V>)
        requires
            old(self).wf(),
        ensures
            final(self).wf(),
            final(self).same_settings(&*old(self)),
            final(self).pending_notes() == old(self).pending_notes(),
            match old(self).lookup(*key) {
                None => r.is_none() && final(self).entries() == old(self).entries(),
                Some(v) => {
                    let i = index_of(old(self).entries(), *key);
                    &&& r.is_some()
                    &&& *r.unwrap() == v
                    &&& final(self).entries() == old(self).rebalanced(
                        old(self).entries().remove(i),
                        old(self).entries()[i].weight,
                    ).push(
                        (Entry {
                            accessed_at: old(self).clock(),
                            protected: true,
                            ..old(self).entries()[i]
                        }),
                    )
                },
            },
    {
        let found = self.find(key);
        match found {
            None => None,
            Some(i) => {
                if self.entry_expired(&self.entries[i]) {
                    None
                } else {
                    let ghost s = self.entries@;
                    let mut e = self.entries.remove(i);
                    e.accessed_at = self.now;
                    e.protected = true;
                    proof {
                        lemma_keys_unique_remove(s, i as int);
                        lemma_total_weight_remove(s, i as int);
                    }
                    self.weighted = self.weighted - e.weight as u128;
                    if let Some(c) = self.max_capacity {
                        let pcap: u128 = c as u128 * 4 / 5;
                        let budget: u128 = if pcap >= e.weight as u128 {
                            pcap - e.weight as u128
                        } else {
                            0
                        };
                        self.demote_until(budget, Ghost(e.key));
                    }
                    let ghost rest = self.entries@;
                    proof {
                        lemma_keys_unique_push(rest, e);
                        lemma_total_weight_push(rest, e);
                    }
                    let w = e.weight;
                    self.entries.push(e);
                    self.weighted = self.weighted + w as u128;
                    proof {
                        let now_s = self.entries@;
                        assert forall|j: int| 0 <= j < now_s.len() implies {
                            &&& 1 <= #[trigger] now_s[j].weight
                            &&& now_s[j].inserted_at <= self.now
                            &&& now_s[j].accessed_at <= self.now
                        } by {
                            if j < rest.len() {
                                assert(now_s[j] == rest[j]);
                                assert(1 <= rest[j].weight);
                            } else {
                                assert(1 <= s[i as int].weight);
                            }
                        }
                        assert(obeys_concrete_eq::<K>());
                        assert(self.ttl_nanos == lifetime_nanos(self.time_to_live));
                        assert(self.tti_nanos == lifetime_nanos(self.time_to_idle));
                    }
                    let n = self.entries.len();
                    Some(&self.entries[n - 1].value)
                }
            },
        }
    }

    /// Removes the entry for `key`, if there is one, with an `Explicit`
    /// notification. Returns whether an entry was removed.
    pub fn invalidate(&mut self, key: &K) -> (r: bool)
        requires
            old(self).wf(),
        ensures
            final(self).wf(),
            final(self).same_settings(&*old(self)),
            old(self).invalidated(&*final(self), *key, r),
    {
        match self.find(key) {
            None => false,
            Some(i) => {
                assert(1 <= self.entries@[i as int].weight);
                if self.entry_expired(&self.entries[i]) {
                    return false;
                }
                let ghost s = self.entries@;
                let e = self.entries.remove(i);
                proof {
                    lemma_keys_unique_remove(s, i as int);
                    lemma_total_weight_remove(s, i as int);
                }
                self.weighted = self.weighted - e.weight as u128;
                self.notifications.push(
                    Notification { key: e.key, value: e.value, cause: RemovalCause::Explicit },
                );
                true
            },
        }
    }

    /// The position of the eviction victim.
    fn victim(&self) -> (r: usize)
        requires
            self.wf_core(),
            self.entries@.len() > 0,
        ensures
            r == victim_index(self.entries@),
            r < self.entries@.len(),
    {
        let mut i: usize = 0;
        while i < self.entries.len()
            invariant
                i <= self.entries@.len(),
                forall|j: int| 0 <= j < i ==> self.entries@[j].protected,
            decreases self.entries@.len() - i,
        {
            if !self.entries[i].protected {
                proof {
                    lemma_victim_index_is_first_probation(self.entries@, i as int);
                }
                return i;
            }
            i = i + 1;
        }
        proof {
            lemma_victim_index_all_protected(self.entries@);
        }
        0
    }

    /// Evicts victims, each with a `Size` notification, until the total
    /// weight is at most `budget`.
    fn make_room(&mut self, budget: u128)
        requires
            old(self).wf_core(),
        ensures
            final(self).wf_core(),
            final(self).same_settings(&*old(self)),
            final(self).entries() == survivors(old(self).entries(), budget as nat),
            total_weight(final(self).entries()) <= budget,
            final(self).pending_notes() == old(self).pending_notes() + notes_of(
                victims(old(self).entries(), budget as nat),
                RemovalCause::Size,
            ),
    {
        let ghost s = self.entries@;
        let ghost l0 = self.notifications@;
        let ghost start = *self;
        while self.weighted > budget
            invariant
                self.wf_core(),
                self.same_settings(&start),
                survivors(self.entries@, budget as nat) == survivors(s, budget as nat),
                l0 + notes_of(victims(s, budget as nat), RemovalCause::Size) == self.notifications@
                    + notes_of(victims(self.entries@, budget as nat), RemovalCause::Size),
            decreases self.entries@.len(),
        {
            let ghost cur = self.entries@;
            assert(cur.len() > 0);
            let v = self.victim();
            proof {
                lemma_victim_index_in_range(cur);
            }
            let e = self.entries.remove(v);
            proof {
                lemma_keys_unique_remove(cur, v as int);
                lemma_total_weight_remove(cur, v as int);
                let tail = notes_of(victims(cur.remove(v as int), budget as nat), RemovalCause::Size);
                assert(notes_of(victims(cur, budget as nat), RemovalCause::Size) =~= seq![
                    note_of(e, RemovalCause::Size),
                ] + tail);
                assert(self.notifications@ + (seq![note_of(e, RemovalCause::Size)] + tail)
                    =~= self.notifications@.push(note_of(e, RemovalCause::Size)) + tail);
            }
            self.weighted = self.weighted - e.weight as u128;
            self.notifications.push(
                Notification { key: e.key, value: e.value, cause: RemovalCause::Size },
            );
        }
        proof {
            let cur = self.entries@;
            assert(victims(cur, budget as nat) =~= Seq::<Entry<K, V>>::empty());
            assert(notes_of(victims(cur, budget as nat), RemovalCause::Size)
                =~= Seq::<Notification<K, V>>::empty());
            assert(self.notifications@ + Seq::<Notification<K, V>>::empty()
                =~= self.notifications@);
        }
    }

    /// Whether an entry of weight `w` is refused outright: it alone would
    /// exceed the capacity.
    pub open spec fn refuses(&self, w: u64) -> bool {
        match self.capacity() {
            Some(c) => w > c,
            None => false,
        }
    }

    /// The entries without the one for `key`, if any.
    pub open spec fn without_key(&self, key: K) -> Seq<Entry<K, V>> {
        let s = self.entries();
        let i = index_of(s, key);
        if i >= 0 {
            s.remove(i)
        } else {
            s
        }
    }

    /// The entry that binding `key` to `value` with weight `w` creates now:
    /// on probation, as it has not been read yet.
    pub open spec fn fresh_entry(&self, key: K, value: V, w: u64) -> Entry<K, V> {
        Entry {
            key,
            value,
            inserted_at: self.clock(),
            accessed_at: self.clock(),
            weight: w,
            protected: false,
        }
    }

    /// The entries of `base` that make room for an entry of weight `w`.
    pub open spec fn room_kept(&self, base: Seq<Entry<K, V>>, w: u64) -> Seq<Entry<K, V>> {
        match self.capacity() {
            Some(c) => survivors(base, (c - w) as nat),
            None => base,
        }
    }

    /// The entries of `base` evicted to make room for an entry of weight `w`.
    pub open spec fn room_evicted(&self, base: Seq<Entry<K, V>>, w: u64) -> Seq<Entry<K, V>> {
        match self.capacity() {
            Some(c) => victims(base, (c - w) as nat),
            None => Seq::empty(),
        }
    }

    /// The `Replaced` notification that binding `key` anew produces, if any.
    pub open spec fn replaced_notes(&self, key: K) -> Seq<Notification<K, V>> {
        let s = self.entries();
        let i = index_of(s, key);
        if i >= 0 {
            seq![note_of(s[i], RemovalCause::Replaced)]
        } else {
            Seq::empty()
        }
    }

    /// What binding `key` to `value` with the weigher's result `weight` does
    /// to the entries and the notifications.
    pub open spec fn inserted(&self, after: &Self, key: K, value: V, weight: u64) -> bool {
        let w = effective_weight(weight);
        let base = self.without_key(key);
        if self.refuses(w) {
            &&& after.entries() == base
            &&& after.pending_notes() == (self.pending_notes() + self.replaced_notes(key)).push(
                (Notification { key, value, cause: RemovalCause::Size }),
            )
        } else {
            &&& after.entries() == self.room_kept(base, w).push(self.fresh_entry(key, value, w))
            &&& after.pending_notes() == self.pending_notes() + self.replaced_notes(key)
                + notes_of(self.room_evicted(base, w), RemovalCause::Size)
        }
    }

    /// Binds `key` to `value` with the weight `weight` (0 counts as 1). A
    /// prior entry for `key` leaves with a `Replaced` notification; an entry
    /// heavier than the capacity is then refused with a `Size` one; otherwise,
    /// to make room, victims are evicted, each with a `Size`
    /// notification: the least recently used probation entry first, a
    /// protected one only when probation is empty. The new entry joins
    /// probation at the most recently used end.
    pub fn insert_with_weight(&mut self, key: K, value: V, weight: u64)
        requires
            old(self).wf(),
        ensures
            final(self).wf(),
            final(self).same_settings(&*old(self)),
            old(self).inserted(&*final(self), key, value, weight),
    {
        let w: u64 = if weight == 0 {
            1
        } else {
            weight
        };
        let ghost s0 = self.entries@;
        let ghost l0 = self.notifications@;
        match self.find(&key) {
            Some(i) => {
                let old_entry = self.entries.remove(i);
                proof {
                    assert(s0[i as int].key == key);
                    lemma_keys_unique_remove(s0, i as int);
                    lemma_total_weight_remove(s0, i as int);
                }
                self.weighted = self.weighted - old_entry.weight as u128;
                self.notifications.push(
                    Notification {
                        key: old_entry.key,
                        value: old_entry.value,
                        cause: RemovalCause::Replaced,
                    },
                );
                assert(self.notifications@ =~= l0 + old(self).replaced_notes(key));
            },
            None => {
                assert(self.notifications@ =~= l0 + old(self).replaced_notes(key));
                assert forall|j: int| 0 <= j < s0.len() implies #[trigger] s0[j].key != key by {
                    if s0[j].key == key {
                        lemma_index_of_present(s0, j);
                    }
                }
            },
        }
        let ghost base = self.entries@;
        let ghost l1 = self.notifications@;
        assert(base == old(self).without_key(key));
        if let Some(c) = self.max_capacity {
            if w as u128 > c as u128 {
                self.notifications.push(
                    Notification { key, value, cause: RemovalCause::Size },
                );
                return;
            }
        }
        if let Some(c) = self.max_capacity {
            self.make_room(c as u128 - w as u128);
        } else {
            assert(self.notifications@ =~= l1 + notes_of(
                Seq::<Entry<K, V>>::empty(),
                RemovalCause::Size,
            ));
        }
        assert(self.entries@ == old(self).room_kept(base, w));
        proof {
            if let Some(c) = self.max_capacity {
                lemma_survivors_without_key(base, (c - w) as nat, key);
            }
        }
        let now = self.now;
        let e = Entry { key, value, inserted_at: now, accessed_at: now, weight: w, protected: false };
        let len = self.entries.len();
        proof {
            lemma_keys_unique_push(self.entries@, e);
            lemma_total_weight_push(self.entries@, e);
            lemma_total_weight_bound(self.entries@);
            assert(self.weighted + w <= (len + 1) * (MAX_WEIGHT as nat));
        }
        let ghost before = self.entries@;
        self.entries.push(e);
        self.weighted = self.weighted + w as u128;
        proof {
            let pre = self.entries@;
            assert forall|j: int| 0 <= j < pre.len() implies {
                &&& 1 <= #[trigger] pre[j].weight
                &&& pre[j].inserted_at <= self.now
                &&& pre[j].accessed_at <= self.now
            } by {
                if j < before.len() {
                    assert(pre[j] == before[j]);
                    assert(1 <= before[j].weight);
                }
            }
            assert(keys_unique(pre));
            assert(self.weighted == total_weight(pre));
            assert(obeys_concrete_eq::<K>());
            assert(self.ttl_nanos == lifetime_nanos(self.time_to_live));
            assert(self.tti_nanos == lifetime_nanos(self.time_to_idle));
            self.lemma_wf_core_intro();
            assert(self.within_capacity());
            assert(self.notifications@ =~= l0 + old(self).replaced_notes(key) + notes_of(
                old(self).room_evicted(base, w),
                RemovalCause::Size,
            ));
        }
    }

    /// Binds `key` to `value`, with the weight the cache's weigher gives it;
    /// see `insert_with_weight`.
    pub fn insert(&mut self, key: K, value: V)
        requires
            old(self).wf(),
        ensures
            final(self).wf(),
            final(self).same_settings(&*old(self)),
            old(self).inserted(
                &*final(self),
                key,
                value,
                old(self).weigher_setting().spec_weigh(key, value),
            ),
    {
        let weight = self.weigher.weigh(&key, &value);
        self.insert_with_weight(key, value, weight);
    }

    /// Removes every expired entry, with an `Expired` notification for each,
    /// oldest first. Live entries keep their order.
    pub fn run_pending_tasks(&mut self)
        requires
            old(self).wf(),
        ensures
            final(self).wf(),
            final(self).same_settings(&*old(self)),
            final(self).within_capacity(),
            old(self).maintained(&*final(self)),
    {
        let ghost s = self.entries@;
        let ghost l0 = self.notifications@;
        let ghost start = *self;
        let ghost ttl = self.ttl();
        let ghost tti = self.tti();
        let ghost now = self.now;
        let mut kept: Vec<Entry<K, V>> = Vec::new();
        let mut kept_weight: u128 = 0;
        while self.entries.len() > 0
            invariant
                self.wf_core(),
                self.same_settings(&start),
                ttl == self.ttl(),
                tti == self.tti(),
                now == self.now,
                keys_unique(kept@),
                forall|a: int, b: int|
                    0 <= a < kept@.len() && 0 <= b < self.entries@.len() ==> kept@[a].key
                        != self.entries@[b].key,
                forall|a: int|
                    0 <= a < kept@.len() ==> {
                        &&& 1 <= #[trigger] kept@[a].weight
                        &&& kept@[a].inserted_at <= now
                        &&& kept@[a].accessed_at <= now
                    },
                kept@ + live_entries(self.entries@, ttl, tti, now) == live_entries(s, ttl, tti, now),
                self.notifications@ + notes_of(
                    expired_entries(self.entries@, ttl, tti, now),
                    RemovalCause::Expired,
                ) == l0 + notes_of(expired_entries(s, ttl, tti, now), RemovalCause::Expired),
                kept_weight == total_weight(kept@),
                kept_weight + self.weighted <= total_weight(s),
                total_weight(s) <= u128::MAX,
            decreases self.entries@.len(),
        {
            let ghost cur = self.entries@;
            let ghost rest = cur.drop_first();
            let e = self.entries.remove(0);
            proof {
                assert(cur.remove(0) =~= rest);
                lemma_keys_unique_remove(cur, 0);
                lemma_total_weight_remove(cur, 0);
            }
            self.weighted = self.weighted - e.weight as u128;
            if self.entry_expired(&e) {
                proof {
                    let tail = notes_of(expired_entries(rest, ttl, tti, now), RemovalCause::Expired);
                    assert(notes_of(expired_entries(cur, ttl, tti, now), RemovalCause::Expired)
                        =~= seq![note_of(e, RemovalCause::Expired)] + tail);
                    assert(self.notifications@ + (seq![note_of(e, RemovalCause::Expired)] + tail)
                        =~= self.notifications@.push(note_of(e, RemovalCause::Expired)) + tail);
                }
                self.notifications.push(
                    Notification { key: e.key, value: e.value, cause: RemovalCause::Expired },
                );
            } else {
                proof {
                    let tail = live_entries(rest, ttl, tti, now);
                    assert(kept@ + (seq![e] + tail) =~= kept@.push(e) + tail);
                    lemma_keys_unique_push(kept@, e);
                    lemma_total_weight_push(kept@, e);
                }
                kept_weight = kept_weight + e.weight as u128;
                kept.push(e);
            }
        }
        proof {
            assert(live_entries(self.entries@, ttl, tti, now) =~= Seq::<Entry<K, V>>::empty());
            assert(kept@ + Seq::<Entry<K, V>>::empty() =~= kept@);
            assert(notes_of(expired_entries(self.entries@, ttl, tti, now), RemovalCause::Expired)
                =~= Seq::<Notification<K, V>>::empty());
            assert(self.notifications@ + Seq::<Notification<K, V>>::empty()
                =~= self.notifications@);
        }
        self.entries = kept;
        self.weighted = kept_weight;
    }

    /// Removes every entry, with an `Explicit` notification for each, from
    /// the least to the most recently used.
    pub fn invalidate_all(&mut self)
        requires
            old(self).wf(),
        ensures
            final(self).wf(),
            final(self).same_settings(&*old(self)),
            old(self).cleared(&*final(self)),
    {
        let ghost s = self.entries@;
        let ghost l0 = self.notifications@;
        let ghost start = *self;
        let ghost mut k: int = 0;
        while self.entries.len() > 0
            invariant
                self.wf(),
                self.same_settings(&start),
                0 <= k <= s.len(),
                self.entries@ == s.subrange(k, s.len() as int),
                self.notifications@ == l0 + notes_of(s.subrange(0, k), RemovalCause::Explicit),
            decreases self.entries@.len(),
        {
            let ghost cur = self.entries@;
            let e = self.entries.remove(0);
            proof {
                lemma_keys_unique_remove(cur, 0);
                lemma_total_weight_remove(cur, 0);
                assert(s.subrange(k + 1, s.len() as int) =~= cur.remove(0));
                assert(notes_of(s.subrange(0, k + 1), RemovalCause::Explicit) =~= notes_of(
                    s.subrange(0, k),
                    RemovalCause::Explicit,
                ).push(note_of(s[k], RemovalCause::Explicit)));
                k = k + 1;
            }
            self.weighted = self.weighted - e.weight as u128;
            self.notifications.push(
                Notification { key: e.key, value: e.value, cause: RemovalCause::Explicit },
            );
        }
        assert(s.subrange(0, s.len() as int) =~= s);
        assert(self.entries@ =~= Seq::<Entry<K, V>>::empty());
    }

    /// Moves the logical clock forward by `d`, stopping at the largest time
    /// a `u128` holds.
    pub fn advance_time(&mut self, d: Duration)
        requires
            old(self).wf(),
        ensures
            final(self).wf(),
            old(self).advanced(&*final(self), d),
    {
        let n = duration_nanos(&d);
        self.now = self.now.saturating_add(n);
    }

    /// The number of entries held, expired ones included until
    /// `run_pending_tasks` removes them.
    pub fn len(&self) -> (r: usize)
        requires
            self.wf(),
        ensures
            r == self.entries().len(),
    {
        self.entries.len()
    }

    /// The total weight of the entries held.
    pub fn weighted_size(&self) -> (r: u128)
        requires
            self.wf(),
        ensures
            r == total_weight(self.entries()),
    {
        self.weighted
    }

    /// The capacity the cache was built with.
    pub fn max_capacity(&self) -> (r: Option<usize>)
        ensures
            r == self.capacity(),
    {
        self.max_capacity
    }

    /// The time to live the cache was built with.
    pub fn time_to_live(&self) -> (r: Option<Duration>)
        ensures
            r == self.ttl_setting(),
    {
        self.time_to_live
    }

    /// The time to idle the cache was built with.
    pub fn time_to_idle(&self) -> (r: Option<Duration>)
        ensures
            r == self.tti_setting(),
    {
        self.time_to_idle
    }

    /// Hands over the notifications produced so far, oldest first, and
    /// forgets them.
    pub fn take_notifications(&mut self) -> (r: Vec<Notification<K, V>>)
        requires
            old(self).wf(),
        ensures
            final(self).wf(),
            final(self).same_settings(&*old(self)),
            final(self).entries() == old(self).entries(),
            r@ == old(self).pending_notes(),
            final(self).pending_notes() == Seq::<Notification<K, V>>::empty(),
    {
        let mut out: Vec<Notification<K, V>> = Vec::new();
        std::mem::swap(&mut out, &mut self.notifications);
        out
    }
}

} // verus!
