use vstd::prelude::*;

verus! {

/// Why an entry left the cache.
#[derive(Clone, Copy, Debug, PartialEq, Eq, Structural)]
pub enum RemovalCause {
    /// Removed by `invalidate` or `invalidate_all`.
    Explicit,
    /// Replaced by a later `insert` of the same key.
    Replaced,
    /// Evicted, or refused at admission, to keep the total weight bounded.
    Size,
    /// Its time to live or time to idle had elapsed.
    Expired,
}

/// One binding of a key to a value, with its timestamps and weight.
pub struct Entry<K, V> {
    pub key: K,
    pub value: V,
    /// Logical time, in nanoseconds, of the insert that created the entry.
    pub inserted_at: u128,
    /// Logical time, in nanoseconds, of the last insert or successful read.
    pub accessed_at: u128,
    /// The entry's weight; at least 1.
    pub weight: u64,
    /// Whether the entry has been read since it was inserted, which moves it
    /// from the probation segment to the protected one.
    pub protected: bool,
}

/// What the cache reports for each entry it removes.
pub struct Notification<K, V> {
    pub key: K,
    pub value: V,
    pub cause: RemovalCause,
}

/// The largest weight a single entry can have.
pub const MAX_WEIGHT: u64 = 0xffff_ffff_ffff_ffff;

/// The sum of the weights of a sequence of entries.
pub open spec fn total_weight<K, V>(s: Seq<Entry<K, V>>) -> nat
    decreases s.len(),
{
    if s.len() == 0 {
        0
    } else {
        total_weight(s.drop_last()) + (s.last().weight as nat)
    }
}

/// The notification that removing `e` for `cause` produces.
pub open spec fn note_of<K, V>(e: Entry<K, V>, cause: RemovalCause) -> Notification<K, V> {
    Notification { key: e.key, value: e.value, cause }
}

/// The notifications that removing each entry of `s`, in order, produces.
pub open spec fn notes_of<K, V>(s: Seq<Entry<K, V>>, cause: RemovalCause) -> Seq<Notification<K, V>> {
    s.map_values(|e: Entry<K, V>| note_of(e, cause))
}

/// The position of the entry for `k` in `s`, or -1 when there is none.
pub open spec fn index_of<K, V>(s: Seq<Entry<K, V>>, k: K) -> int {
    if exists|i: int| 0 <= i < s.len() && s[i].key == k {
        choose|i: int| 0 <= i < s.len() && s[i].key == k
    } else {
        -1
    }
}

/// No two entries of `s` have the same key.
pub open spec fn keys_unique<K, V>(s: Seq<Entry<K, V>>) -> bool {
    forall|i: int, j: int| 0 <= i < j < s.len() ==> s[i].key != s[j].key
}

/// Whether `e` has outlived its time to live or its time to idle at `now`.
pub open spec fn is_expired<K, V>(
    e: Entry<K, V>,
    ttl: Option<u128>,
    tti: Option<u128>,
    now: u128,
) -> bool {
    ||| (match ttl {
        Some(t) => e.inserted_at + t <= now,
        None => false,
    })
    ||| (match tti {
        Some(t) => e.accessed_at + t <= now,
        None => false,
    })
}

/// The entries of `s` that are not expired, in order.
pub open spec fn live_entries<K, V>(
    s: Seq<Entry<K, V>>,
    ttl: Option<u128>,
    tti: Option<u128>,
    now: u128,
) -> Seq<Entry<K, V>>
    decreases s.len(),
{
    if s.len() == 0 {
        s
    } else {
        let rest = live_entries(s.drop_first(), ttl, tti, now);
        if is_expired(s[0], ttl, tti, now) {
            rest
        } else {
            seq![s[0]] + rest
        }
    }
}

/// The entries of `s` that are expired, in order.
pub open spec fn expired_entries<K, V>(
    s: Seq<Entry<K, V>>,
    ttl: Option<u128>,
    tti: Option<u128>,
    now: u128,
) -> Seq<Entry<K, V>>
    decreases s.len(),
{
    if s.len() == 0 {
        s
    } else {
        let rest = expired_entries(s.drop_first(), ttl, tti, now);
        if is_expired(s[0], ttl, tti, now) {
            seq![s[0]] + rest
        } else {
            rest
        }
    }
}

/// The position of the eviction victim in `s`: the least recently used
/// probation entry or, when every entry is protected, the least recently used
/// protected one.
#[verifier::opaque]
pub open spec fn victim_index<K, V>(s: Seq<Entry<K, V>>) -> int {
    if exists|i: int| 0 <= i < s.len() && !s[i].protected {
        choose|i: int|
            0 <= i < s.len() && !s[i].protected && forall|j: int| 0 <= j < i ==> s[j].protected
    } else {
        0
    }
}

/// The entries of `s` that remain once victims are evicted one by one until
/// the total weight is at most `budget`.
pub open spec fn survivors<K, V>(s: Seq<Entry<K, V>>, budget: nat) -> Seq<Entry<K, V>>
    decreases s.len(),
{
    if s.len() == 0 || total_weight(s) <= budget {
        s
    } else {
        let v = victim_index(s);
        if 0 <= v < s.len() {
            survivors(s.remove(v), budget)
        } else {
            s
        }
    }
}

/// The entries evicted from `s`, in order, until the total weight is at most
/// `budget`.
pub open spec fn victims<K, V>(s: Seq<Entry<K, V>>, budget: nat) -> Seq<Entry<K, V>>
    decreases s.len(),
{
    if s.len() == 0 || total_weight(s) <= budget {
        Seq::empty()
    } else {
        let v = victim_index(s);
        if 0 <= v < s.len() {
            seq![s[v]] + victims(s.remove(v), budget)
        } else {
            Seq::empty()
        }
    }
}

/// The first probation entry, when there is one, is the victim.
pub proof fn lemma_victim_index_is_first_probation<K, V>(s: Seq<Entry<K, V>>, i: int)
    requires
        0 <= i < s.len(),
        !s[i].protected,
        forall|j: int| 0 <= j < i ==> s[j].protected,
    ensures
        victim_index(s) == i,
{
    reveal(victim_index);
    let v = choose|v: int|
        0 <= v < s.len() && !s[v].protected && forall|j: int| 0 <= j < v ==> s[j].protected;
    assert(0 <= v < s.len() && !s[v].protected && forall|j: int| 0 <= j < v ==> s[j].protected);
    if v < i {
        assert(s[v].protected);
    } else if v > i {
        assert(s[i].protected);
    }
}

/// With no probation entry, the victim is the first entry.
pub proof fn lemma_victim_index_all_protected<K, V>(s: Seq<Entry<K, V>>)
    requires
        forall|j: int| 0 <= j < s.len() ==> s[j].protected,
    ensures
        victim_index(s) == 0,
{
    reveal(victim_index);
}

/// The victim of a non-empty sequence is one of its entries.
pub proof fn lemma_victim_index_in_range<K, V>(s: Seq<Entry<K, V>>)
    requires
        s.len() > 0,
    ensures
        0 <= victim_index(s) < s.len(),
{
    reveal(victim_index);
    if exists|i: int| 0 <= i < s.len() && !s[i].protected {
        lemma_first_probation_exists(s, s.len() as int);
    }
}

/// Among the first `n` entries, if one is on probation, a first one is.
proof fn lemma_first_probation_exists<K, V>(s: Seq<Entry<K, V>>, n: int)
    requires
        0 <= n <= s.len(),
        exists|i: int| 0 <= i < n && !s[i].protected,
    ensures
        exists|i: int|
            0 <= i < s.len() && !s[i].protected && forall|j: int| 0 <= j < i ==> s[j].protected,
    decreases n,
{
    if exists|i: int| 0 <= i < n - 1 && !s[i].protected {
        lemma_first_probation_exists(s, n - 1);
    } else {
        let k = n - 1;
        assert(!s[k].protected);
        assert(forall|j: int| 0 <= j < k ==> s[j].protected);
    }
}

/// Eviction brings in no key that was not there.
pub proof fn lemma_survivors_without_key<K, V>(s: Seq<Entry<K, V>>, budget: nat, key: K)
    requires
        forall|i: int| 0 <= i < s.len() ==> #[trigger] s[i].key != key,
    ensures
        forall|j: int|
            0 <= j < survivors(s, budget).len() ==> #[trigger] survivors(s, budget)[j].key != key,
    decreases s.len(),
{
    if s.len() > 0 && total_weight(s) > budget {
        let v = victim_index(s);
        if 0 <= v < s.len() {
            let r = s.remove(v);
            assert forall|i: int| 0 <= i < r.len() implies #[trigger] r[i].key != key by {
                if i < v {
                    assert(r[i] == s[i]);
                } else {
                    assert(r[i] == s[i + 1]);
                }
            }
            lemma_survivors_without_key(r, budget, key);
            assert(survivors(s, budget) == survivors(r, budget));
        }
    }
}

/// Eviction splits a sequence into survivors and victims, and the survivors
/// fit the budget.
pub proof fn lemma_eviction_splits<K, V>(s: Seq<Entry<K, V>>, budget: nat)
    ensures
        survivors(s, budget).len() + victims(s, budget).len() == s.len(),
        total_weight(survivors(s, budget)) <= budget || survivors(s, budget).len() == 0,
    decreases s.len(),
{
    if s.len() > 0 && total_weight(s) > budget {
        let v = victim_index(s);
        lemma_victim_index_in_range(s);
        lemma_eviction_splits(s.remove(v), budget);
    }
}

/// The sum of the weights of the protected entries of `s`.
pub open spec fn protected_weight<K, V>(s: Seq<Entry<K, V>>) -> nat
    decreases s.len(),
{
    if s.len() == 0 {
        0
    } else {
        protected_weight(s.drop_last()) + if s.last().protected {
            s.last().weight as nat
        } else {
            0
        }
    }
}

/// The number of protected entries of `s`.
pub open spec fn protected_count<K, V>(s: Seq<Entry<K, V>>) -> nat
    decreases s.len(),
{
    if s.len() == 0 {
        0
    } else {
        protected_count(s.drop_last()) + if s.last().protected {
            1nat
        } else {
            0
        }
    }
}

/// The bound on the weight of the protected segment under capacity `cap`:
/// four fifths of it.
pub open spec fn protected_capacity(cap: nat) -> nat {
    cap * 4 / 5
}

/// The position of the least recently used protected entry, if any.
#[verifier::opaque]
pub open spec fn first_protected<K, V>(s: Seq<Entry<K, V>>) -> int {
    choose|i: int|
        0 <= i < s.len() && s[i].protected && forall|j: int| 0 <= j < i ==> !s[j].protected
}

/// `s` with its least recently used protected entry moved to the most
/// recently used end of probation.
pub open spec fn demote_once<K, V>(s: Seq<Entry<K, V>>) -> Seq<Entry<K, V>> {
    let i = first_protected(s);
    s.remove(i).push(Entry { protected: false, ..s[i] })
}

/// `s` after demoting, at most `n` times, until the protected segment weighs
/// at most `pcap`.
pub open spec fn demote_steps<K, V>(s: Seq<Entry<K, V>>, pcap: nat, n: nat) -> Seq<Entry<K, V>>
    decreases n,
{
    if n == 0 || protected_weight(s) <= pcap {
        s
    } else {
        demote_steps(demote_once(s), pcap, (n - 1) as nat)
    }
}

/// `s` after demoting until the protected segment weighs at most `pcap`.
pub open spec fn demoted<K, V>(s: Seq<Entry<K, V>>, pcap: nat) -> Seq<Entry<K, V>> {
    demote_steps(s, pcap, s.len())
}

pub proof fn lemma_first_protected_is_first<K, V>(s: Seq<Entry<K, V>>, i: int)
    requires
        0 <= i < s.len(),
        s[i].protected,
        forall|j: int| 0 <= j < i ==> !s[j].protected,
    ensures
        first_protected(s) == i,
{
    reveal(first_protected);
    let v = choose|v: int|
        0 <= v < s.len() && s[v].protected && forall|j: int| 0 <= j < v ==> !s[j].protected;
    assert(0 <= v < s.len() && s[v].protected && forall|j: int| 0 <= j < v ==> !s[j].protected);
    if v < i {
        assert(!s[v].protected);
    } else if v > i {
        assert(!s[i].protected);
    }
}

pub proof fn lemma_protected_weight_bound<K, V>(s: Seq<Entry<K, V>>)
    ensures
        protected_weight(s) <= s.len() * (MAX_WEIGHT as nat),
    decreases s.len(),
{
    if s.len() > 0 {
        lemma_protected_weight_bound(s.drop_last());
    }
}

pub proof fn lemma_protected_count_bound<K, V>(s: Seq<Entry<K, V>>)
    ensures
        protected_count(s) <= s.len(),
    decreases s.len(),
{
    if s.len() > 0 {
        lemma_protected_count_bound(s.drop_last());
    }
}

/// With no protected entry, the protected segment weighs nothing.
pub proof fn lemma_unprotected_weightless<K, V>(s: Seq<Entry<K, V>>)
    requires
        forall|j: int| 0 <= j < s.len() ==> !#[trigger] s[j].protected,
    ensures
        protected_weight(s) == 0,
    decreases s.len(),
{
    if s.len() > 0 {
        assert(!s[s.len() - 1].protected);
        lemma_unprotected_weightless(s.drop_last());
    }
}

pub proof fn lemma_protected_concat<K, V>(a: Seq<Entry<K, V>>, b: Seq<Entry<K, V>>)
    ensures
        protected_weight(a + b) == protected_weight(a) + protected_weight(b),
        protected_count(a + b) == protected_count(a) + protected_count(b),
    decreases b.len(),
{
    if b.len() == 0 {
        assert(a + b =~= a);
    } else {
        lemma_protected_concat(a, b.drop_last());
        assert((a + b).drop_last() =~= a + b.drop_last());
    }
}

/// Demoting the entry at `i` takes its weight and one count off the
/// protected segment.
pub proof fn lemma_demote_at<K, V>(s: Seq<Entry<K, V>>, i: int)
    requires
        0 <= i < s.len(),
        s[i].protected,
    ensures
        protected_weight(s.remove(i).push(Entry { protected: false, ..s[i] })) + s[i].weight
            == protected_weight(s),
        protected_count(s.remove(i).push(Entry { protected: false, ..s[i] })) + 1 == protected_count(
            s,
        ),
{
    let l = s.subrange(0, i);
    let r = s.subrange(i + 1, s.len() as int);
    let one = seq![s[i]];
    let e = Entry { protected: false, ..s[i] };
    assert(s.remove(i) =~= l + r);
    assert(s =~= (l + one) + r);
    assert(one.drop_last() =~= Seq::<Entry<K, V>>::empty());
    assert(protected_weight(Seq::<Entry<K, V>>::empty()) == 0);
    assert(protected_count(Seq::<Entry<K, V>>::empty()) == 0);
    lemma_protected_concat(l, r);
    lemma_protected_concat(l + one, r);
    lemma_protected_concat(l, one);
    assert((l + r).push(e).drop_last() =~= l + r);
}

pub proof fn lemma_total_weight_concat<K, V>(a: Seq<Entry<K, V>>, b: Seq<Entry<K, V>>)
    ensures
        total_weight(a + b) == total_weight(a) + total_weight(b),
    decreases b.len(),
{
    if b.len() == 0 {
        assert(a + b =~= a);
    } else {
        lemma_total_weight_concat(a, b.drop_last());
        assert((a + b).drop_last() =~= a + b.drop_last());
    }
}

pub proof fn lemma_total_weight_remove<K, V>(s: Seq<Entry<K, V>>, i: int)
    requires
        0 <= i < s.len(),
    ensures
        total_weight(s.remove(i)) + s[i].weight == total_weight(s),
{
    let l = s.subrange(0, i);
    let r = s.subrange(i + 1, s.len() as int);
    let one = seq![s[i]];
    assert(s.remove(i) =~= l + r);
    assert(s =~= (l + one) + r);
    assert(one.drop_last() =~= Seq::<Entry<K, V>>::empty());
    assert(total_weight(Seq::<Entry<K, V>>::empty()) == 0);
    assert(total_weight(one) == s[i].weight);
    lemma_total_weight_concat(l, r);
    lemma_total_weight_concat(l + one, r);
    lemma_total_weight_concat(l, one);
}

pub proof fn lemma_total_weight_push<K, V>(s: Seq<Entry<K, V>>, e: Entry<K, V>)
    ensures
        total_weight(s.push(e)) == total_weight(s) + e.weight,
{
    assert(s.push(e).drop_last() =~= s);
}

pub proof fn lemma_total_weight_bound<K, V>(s: Seq<Entry<K, V>>)
    ensures
        total_weight(s) <= s.len() * (MAX_WEIGHT as nat),
    decreases s.len(),
{
    if s.len() > 0 {
        lemma_total_weight_bound(s.drop_last());
    }
}

pub proof fn lemma_keys_unique_remove<K, V>(s: Seq<Entry<K, V>>, i: int)
    requires
        keys_unique(s),
        0 <= i < s.len(),
    ensures
        keys_unique(s.remove(i)),
        forall|j: int| 0 <= j < s.len() - 1 ==> #[trigger] s.remove(i)[j].key != s[i].key,
{
    let r = s.remove(i);
    assert forall|a: int, b: int| 0 <= a < b < r.len() implies r[a].key != r[b].key by {
        let a0 = if a < i { a } else { a + 1 };
        let b0 = if b < i { b } else { b + 1 };
        assert(r[a] == s[a0] && r[b] == s[b0]);
    }
    assert forall|j: int| 0 <= j < s.len() - 1 implies #[trigger] r[j].key != s[i].key by {
        let j0 = if j < i { j } else { j + 1 };
        assert(r[j] == s[j0]);
    }
}

pub proof fn lemma_keys_unique_push<K, V>(s: Seq<Entry<K, V>>, e: Entry<K, V>)
    requires
        keys_unique(s),
        forall|j: int| 0 <= j < s.len() ==> #[trigger] s[j].key != e.key,
    ensures
        keys_unique(s.push(e)),
{
    let r = s.push(e);
    assert forall|a: int, b: int| 0 <= a < b < r.len() implies r[a].key != r[b].key by {
        assert(r[a] == s[a]);
        if b < s.len() {
            assert(r[b] == s[b]);
        }
    }
}

/// The position of a key that is present.
pub proof fn lemma_index_of_present<K, V>(s: Seq<Entry<K, V>>, i: int)
    requires
        keys_unique(s),
        0 <= i < s.len(),
    ensures
        index_of(s, s[i].key) == i,
{
    let k = s[i].key;
    let j = choose|j: int| 0 <= j < s.len() && s[j].key == k;
    assert(s[j].key == k);
}

} // verus!
