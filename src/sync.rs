//! Declarations of the std synchronisation and clock types that the engine uses.
use std::sync::{Condvar, Mutex, MutexGuard, PoisonError};
use std::time::{Duration, Instant};
use vstd::prelude::*;

verus! {

#[verifier::external_type_specification]
#[verifier::external_body]
#[verifier::reject_recursive_types(T)]
pub struct ExMutex<T: ?Sized>(Mutex<T>);

#[verifier::external_type_specification]
#[verifier::external_body]
#[verifier::reject_recursive_types(T)]
pub struct ExMutexGuard<'a, T: ?Sized + 'a>(MutexGuard<'a, T>);

#[verifier::external_type_specification]
#[verifier::external_body]
pub struct ExCondvar(Condvar);

#[verifier::external_type_specification]
#[verifier::external_body]
pub struct ExInstant(Instant);

/// std's `Mutex::new`: a new unlocked mutex around `t`.
pub assume_specification<T>[ Mutex::<T>::new ](t: T) -> Mutex<T>;

/// std's `Condvar::new`: a condition variable with no waiters.
pub assume_specification[ Condvar::new ]() -> Condvar;


/// std's `Instant::now`: the current reading of a monotonic clock.
pub assume_specification[ Instant::now ]() -> Instant;

/// std's `Instant::elapsed`: the time passed since the instant was taken.
pub assume_specification[ Instant::elapsed ](i: &Instant) -> Duration;

/// std's `Duration::as_nanos`: the whole duration in nanoseconds.
pub assume_specification[ Duration::as_nanos ](d: &Duration) -> u128;

/// Relies on std's `Mutex::lock`: blocks until the lock is free and returns its
/// guard. A poisoned lock still hands out its guard, since no holder in this
/// library panics while holding it. It does not unwind: `lock` panics only
/// when the calling thread already holds the lock, and no code here locks a
/// mutex while holding it.
#[verifier::external_body]
pub fn lock_mutex<T>(m: &Mutex<T>) -> MutexGuard<'_, T>
    opens_invariants none
    no_unwind
{
    m.lock().unwrap_or_else(PoisonError::into_inner)
}

/// Relies on std's `Condvar::notify_one`: wakes one blocked waiter, if any; it
/// does not panic.
#[verifier::external_body]
pub fn wake_one(cv: &Condvar)
    opens_invariants none
    no_unwind
{
    cv.notify_one();
}

/// Nanoseconds passed since `start`, saturated to `u64::MAX`.
pub fn nanos_since(start: &Instant) -> u64 {
    let ns: u128 = start.elapsed().as_nanos();
    if ns > u64::MAX as u128 {
        u64::MAX
    } else {
        ns as u64
    }
}

} // verus!
