use crate::cache::{lifetime_nanos, Cache, UnitWeigher, Weigher};
use crate::entry::{Entry, Notification};
use crate::time::{duration_nanos, exceeds_max_lifetime, MAX_LIFETIME_NANOS};
use std::collections::hash_map::RandomState;
use std::marker::PhantomData;
use std::time::Duration;
use vstd::laws_eq::obeys_concrete_eq;
use vstd::prelude::*;

verus! {

/// Relies on `RandomState::new`: it returns a hasher builder with fresh random
/// keys, of which nothing further is known.
pub assume_specification[ RandomState::new ]() -> RandomState;

/// Why a configuration was refused.
#[derive(Clone, Copy, Debug, PartialEq, Eq, Structural)]
pub enum BuildError {
    /// The time to live is longer than one thousand years.
    TimeToLiveTooLong,
    /// The time to idle is longer than one thousand years.
    TimeToIdleTooLong,
}

impl BuildError {
    /// A human-readable cause, naming the setting at fault.
    pub fn message(&self) -> (r: &'static str)
        ensures
            r@ == match self {
                BuildError::TimeToLiveTooLong => "time_to_live is longer than 1000 years"@,
                BuildError::TimeToIdleTooLong => "time_to_idle is longer than 1000 years"@,
            },
    {
        match self {
            BuildError::TimeToLiveTooLong => "time_to_live is longer than 1000 years",
            BuildError::TimeToIdleTooLong => "time_to_idle is longer than 1000 years",
        }
    }
}

/// The error, if any, that a configuration with these lifetimes, in
/// nanoseconds, is refused with. The time to live is checked first.
pub open spec fn lifetime_error_of_nanos(ttl: Option<u128>, tti: Option<u128>) -> Option<BuildError> {
    if ttl is Some && exceeds_max_lifetime(ttl->0 as nat) {
        Some(BuildError::TimeToLiveTooLong)
    } else if tti is Some && exceeds_max_lifetime(tti->0 as nat) {
        Some(BuildError::TimeToIdleTooLong)
    } else {
        None
    }
}

/// The error, if any, that a configuration with these lifetimes is refused
/// with.
pub open spec fn lifetime_error(ttl: Option<Duration>, tti: Option<Duration>) -> Option<BuildError> {
    lifetime_error_of_nanos(lifetime_nanos(ttl), lifetime_nanos(tti))
}

/// Checks lifetimes, in nanoseconds, against the one-thousand-year limit.
pub fn lifetime_error_nanos(ttl: Option<u128>, tti: Option<u128>) -> (r: Option<BuildError>)
    ensures
        r == lifetime_error_of_nanos(ttl, tti),
{
    if let Some(t) = ttl {
        if t > MAX_LIFETIME_NANOS {
            return Some(BuildError::TimeToLiveTooLong);
        }
    }
    if let Some(t) = tti {
        if t > MAX_LIFETIME_NANOS {
            return Some(BuildError::TimeToIdleTooLong);
        }
    }
    None
}

/// Collects the settings of a `Cache` and builds it. `W` is the weigher; the
/// default gives every entry the weight 1.
pub struct CacheBuilder<K, V, W> {
    max_capacity: Option<usize>,
    initial_capacity: Option<usize>,
    weigher: W,
    time_to_live: Option<Duration>,
    time_to_idle: Option<Duration>,
    entry_types: PhantomData<(K, V)>,
}

impl<K, V, W> CacheBuilder<K, V, W> {
    /// The max capacity set so far.
    pub closed spec fn max_capacity_setting(&self) -> Option<usize> {
        self.max_capacity
    }

    /// The initial capacity set so far.
    pub closed spec fn initial_capacity_setting(&self) -> Option<usize> {
        self.initial_capacity
    }

    /// The weigher set so far.
    pub closed spec fn weigher_setting(&self) -> W {
        self.weigher
    }

    /// The time to live set so far.
    pub closed spec fn ttl_setting(&self) -> Option<Duration> {
        self.time_to_live
    }

    /// The time to idle set so far.
    pub closed spec fn tti_setting(&self) -> Option<Duration> {
        self.time_to_idle
    }

    /// Sets the max capacity: the bound on the total weight of the entries.
    pub fn max_capacity(self, max_capacity: usize) -> (r: Self)
        ensures
            r.max_capacity_setting() == Some(max_capacity),
            r.initial_capacity_setting() == self.initial_capacity_setting(),
            r.weigher_setting() == self.weigher_setting(),
            r.ttl_setting() == self.ttl_setting(),
            r.tti_setting() == self.tti_setting(),
    {
        CacheBuilder { max_capacity: Some(max_capacity), ..self }
    }

    /// Sets the initial capacity: how many entries to make room for at once.
    pub fn initial_capacity(self, capacity: usize) -> (r: Self)
        ensures
            r.max_capacity_setting() == self.max_capacity_setting(),
            r.initial_capacity_setting() == Some(capacity),
            r.weigher_setting() == self.weigher_setting(),
            r.ttl_setting() == self.ttl_setting(),
            r.tti_setting() == self.tti_setting(),
    {
        CacheBuilder { initial_capacity: Some(capacity), ..self }
    }

    /// Sets the weigher that gives each entry its weight.
    pub fn weigher<W2: Weigher<K, V>>(self, weigher: W2) -> (r: CacheBuilder<K, V, W2>)
        ensures
            r.max_capacity_setting() == self.max_capacity_setting(),
            r.initial_capacity_setting() == self.initial_capacity_setting(),
            r.weigher_setting() == weigher,
            r.ttl_setting() == self.ttl_setting(),
            r.tti_setting() == self.tti_setting(),
    {
        CacheBuilder {
            max_capacity: self.max_capacity,
            initial_capacity: self.initial_capacity,
            weigher,
            time_to_live: self.time_to_live,
            time_to_idle: self.time_to_idle,
            entry_types: PhantomData,
        }
    }

    /// Sets the time to live: an entry expires once this long has passed
    /// since its insert.
    pub fn time_to_live(self, duration: Duration) -> (r: Self)
        ensures
            r.max_capacity_setting() == self.max_capacity_setting(),
            r.initial_capacity_setting() == self.initial_capacity_setting(),
            r.weigher_setting() == self.weigher_setting(),
            r.ttl_setting() == Some(duration),
            r.tti_setting() == self.tti_setting(),
    {
        CacheBuilder { time_to_live: Some(duration), ..self }
    }

    /// Sets the time to idle: an entry expires once this long has passed
    /// since its insert or its last successful read.
    pub fn time_to_idle(self, duration: Duration) -> (r: Self)
        ensures
            r.max_capacity_setting() == self.max_capacity_setting(),
            r.initial_capacity_setting() == self.initial_capacity_setting(),
            r.weigher_setting() == self.weigher_setting(),
            r.ttl_setting() == self.ttl_setting(),
            r.tti_setting() == Some(duration),
    {
        CacheBuilder { time_to_idle: Some(duration), ..self }
    }
}

impl<K, V> Default for CacheBuilder<K, V, UnitWeigher> {
    fn default() -> (r: Self)
        ensures
            r.max_capacity_setting() == None::<usize>,
            r.initial_capacity_setting() == None::<usize>,
            r.weigher_setting() == UnitWeigher,
            r.ttl_setting() == None::<Duration>,
            r.tti_setting() == None::<Duration>,
    {
        CacheBuilder {
            max_capacity: None,
            initial_capacity: None,
            weigher: UnitWeigher,
            time_to_live: None,
            time_to_idle: None,
            entry_types: PhantomData,
        }
    }
}

impl<K, V> CacheBuilder<K, V, UnitWeigher> {
    /// A builder for a cache holding up to `max_capacity` entries.
    pub fn new(max_capacity: usize) -> (r: Self)
        ensures
            r.max_capacity_setting() == Some(max_capacity),
            r.initial_capacity_setting() == None::<usize>,
            r.weigher_setting() == UnitWeigher,
            r.ttl_setting() == None::<Duration>,
            r.tti_setting() == None::<Duration>,
    {
        CacheBuilder { max_capacity: Some(max_capacity), ..Self::default() }
    }
}

impl<K: PartialEq, V, W: Weigher<K, V>> CacheBuilder<K, V, W> {
    /// What building with `hasher` yields: the error of `lifetime_error`, or
    /// an empty cache at time 0 with this builder's settings.
    pub open spec fn builds<S>(&self, r: Result<Cache<K, V, S, W>, BuildError>) -> bool {
        match lifetime_error(self.ttl_setting(), self.tti_setting()) {
            Some(e) => r == Err::<Cache<K, V, S, W>, BuildError>(e),
            None => match r {
                Ok(c) => {
                    &&& c.wf()
                    &&& c.entries() == Seq::<Entry<K, V>>::empty()
                    &&& c.pending_notes() == Seq::<Notification<K, V>>::empty()
                    &&& c.clock() == 0
                    &&& c.capacity() == self.max_capacity_setting()
                    &&& c.weigher_setting() == self.weigher_setting()
                    &&& c.ttl_setting() == self.ttl_setting()
                    &&& c.tti_setting() == self.tti_setting()
                },
                Err(_) => false,
            },
        }
    }

    /// Checks the lifetimes against the one-thousand-year limit.
    fn validate(&self) -> (r: Option<BuildError>)
        ensures
            r == lifetime_error(self.ttl_setting(), self.tti_setting()),
    {
        let ttl = match &self.time_to_live {
            Some(d) => Some(duration_nanos(d)),
            None => None,
        };
        let tti = match &self.time_to_idle {
            Some(d) => Some(duration_nanos(d)),
            None => None,
        };
        lifetime_error_nanos(ttl, tti)
    }

    /// Builds the cache with the given hasher builder, or refuses a time to
    /// live or time to idle longer than one thousand years.
    pub fn build_with_hasher<S>(self, hasher: S) -> (r: Result<Cache<K, V, S, W>, BuildError>)
        requires
            obeys_concrete_eq::<K>(),
        ensures
            self.builds(r),
    {
        match self.validate() {
            Some(e) => Err(e),
            None => Ok(
                Cache::with_everything(
                    self.max_capacity,
                    self.initial_capacity,
                    hasher,
                    self.weigher,
                    self.time_to_live,
                    self.time_to_idle,
                ),
            ),
        }
    }

    /// Builds the cache with a randomly keyed hasher builder, or refuses a
    /// time to live or time to idle longer than one thousand years.
    pub fn build(self) -> (r: Result<Cache<K, V, RandomState, W>, BuildError>)
        requires
            obeys_concrete_eq::<K>(),
        ensures
            self.builds(r),
    {
        self.build_with_hasher(RandomState::new())
    }
}

} // verus!
