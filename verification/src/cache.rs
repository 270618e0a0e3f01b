//! Values that are costly to obtain and are kept for a while.
//!
//! Points in time are nanoseconds since an origin that the program chooses.

use vstd::prelude::*;

use crate::cpu::monus;

verus! {

/// A value and when it was obtained; `None` before the first time.
#[derive(Debug)]
pub struct Cached<T> {
    pub at: Option<u64>,
    pub value: T,
}

/// A value just obtained, and when.
#[derive(Debug)]
pub struct Fresh<T> {
    pub at: u64,
    pub value: T,
}

/// Whether a value obtained at `at` is too old: never obtained, or obtained
/// `ttl` ago or longer.
pub open spec fn is_expired(at: Option<u64>, now: u64, ttl: u64) -> bool {
    match at {
        Some(t) => monus(now, t) >= ttl,
        None => true,
    }
}

pub fn expired(at: Option<u64>, now: u64, ttl: u64) -> (r: bool)
    ensures
        r == is_expired(at, now, ttl),
{
    match at {
        Some(t) => now.saturating_sub(t) >= ttl,
        None => true,
    }
}

impl<T> Cached<T> {
    /// Whether a fresh value is called for.
    pub open spec fn due(self, now: u64, ttl: u64) -> bool {
        is_expired(self.at, now, ttl)
    }

    /// The cache when it was offered a fresh value: it takes the value where its
    /// own has expired.
    pub open spec fn offered(self, now: u64, ttl: u64, fresh: Option<Fresh<T>>) -> Cached<T> {
        match fresh {
            Some(f) if self.due(now, ttl) => Cached { at: Some(f.at), value: f.value },
            _ => self,
        }
    }

    pub fn new(value: T) -> (r: Cached<T>)
        ensures
            r == (Cached { at: None, value }),
    {
        Cached { at: None, value }
    }

    pub fn offer(&mut self, now: u64, ttl: u64, fresh: Option<Fresh<T>>)
        ensures
            *final(self) == old(self).offered(now, ttl, fresh),
    {
        if let Some(f) = fresh {
            if expired(self.at, now, ttl) {
                self.at = Some(f.at);
                self.value = f.value;
            }
        }
    }
}

/// A value that was taken in at a point in time is served, whatever is offered,
/// until its time to live has passed, and then a new one is called for.
pub proof fn law_kept_for_its_time<T>(
    cache: Cached<T>,
    now: u64,
    ttl: u64,
    fresh: Fresh<T>,
    later: u64,
    other: Option<Fresh<T>>,
)
    requires
        cache.due(now, ttl),
        fresh.at <= later,
    ensures
        ({
            let kept = cache.offered(now, ttl, Some(fresh));
            &&& kept.due(later, ttl) <==> later - fresh.at >= ttl
            &&& later - fresh.at < ttl ==> kept.offered(later, ttl, other) == kept
            &&& kept.value == fresh.value
        }),
{
}

/// Where a fresh value is offered whenever one is called for, the value served is
/// younger than its time to live, or was obtained at the very moment.
pub proof fn law_never_stale<T>(cache: Cached<T>, now: u64, ttl: u64, fresh: Option<Fresh<T>>)
    requires
        cache.due(now, ttl) ==> fresh is Some && fresh->0.at >= now,
    ensures
        ({
            let served = cache.offered(now, ttl, fresh);
            &&& served.at is Some
            &&& monus(now, served.at->0) < ttl || served.at->0 >= now
        }),
{
}

} // verus!
