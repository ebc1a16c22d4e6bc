//! A blocking counting semaphore that throttles how many chunks run at once.
use crate::sync::{lock_mutex, nanos_since, wake_one};
use std::sync::{Condvar, Mutex, MutexGuard, PoisonError};
use std::time::Instant;
use vstd::prelude::*;

verus! {

/// The permit count of a semaphore, with the capacity it was made with.
#[derive(Debug, Clone, Copy, PartialEq, Eq, Structural)]
pub struct PermitPool {
    /// Permits free right now.
    pub available: usize,
    /// Permits in all.
    pub capacity: usize,
}

impl PermitPool {
    /// Never more permits free than there are in all.
    pub open spec fn wf(self) -> bool {
        self.available <= self.capacity
    }

    /// A full pool of `capacity` permits.
    pub fn full(capacity: usize) -> (r: PermitPool)
        ensures
            r.available == capacity,
            r.capacity == capacity,
            r.wf(),
    {
        PermitPool { available: capacity, capacity }
    }

    /// No permit is free.
    pub fn is_exhausted(&self) -> (r: bool)
        ensures
            r == (self.available == 0),
    {
        self.available == 0
    }

    /// The pool after one permit is taken.
    pub fn taken(self) -> (r: PermitPool)
        requires
            self.available > 0,
        ensures
            r.available == self.available - 1,
            r.capacity == self.capacity,
            self.wf() ==> r.wf(),
    {
        PermitPool { available: self.available - 1, ..self }
    }

    /// The pool after one permit is given back; a full pool stays full.
    pub fn returned(self) -> (r: PermitPool)
        ensures
            r.available == if self.available < self.capacity {
                self.available + 1
            } else {
                self.available as int
            },
            r.capacity == self.capacity,
            self.wf() ==> r.wf(),
        opens_invariants none
        no_unwind
    {
        if self.available < self.capacity {
            PermitPool { available: self.available + 1, ..self }
        } else {
            self
        }
    }
}

/// What the guard `g` gives access to.
pub uninterp spec fn pool_in(g: MutexGuard<'_, PermitPool>) -> PermitPool;

/// Relies on std's `Deref` for `MutexGuard`: reads the guarded pool.
#[verifier::external_body]
fn read_pool(g: &MutexGuard<'_, PermitPool>) -> (r: PermitPool)
    ensures
        r == pool_in(*g),
    opens_invariants none
    no_unwind
{
    **g
}

/// Relies on std's `DerefMut` for `MutexGuard`: replaces the guarded pool.
#[verifier::external_body]
fn write_pool(g: &mut MutexGuard<'_, PermitPool>, p: PermitPool)
    ensures
        pool_in(*final(g)) == p,
    opens_invariants none
    no_unwind
{
    **g = p;
}

/// Relies on std's `Condvar::wait_while`: blocks, releasing the lock, until the
/// pool is no longer exhausted, and returns with the lock held again. It
/// panics only on a poisoned lock, which needs a holder that panicked, and no
/// holder here panics.
#[verifier::external_body]
fn wait_until_free<'a>(cv: &Condvar, g: MutexGuard<'a, PermitPool>) -> (r: MutexGuard<'a, PermitPool>)
    ensures
        pool_in(r).available > 0,
{
    cv.wait_while(g, |p| p.is_exhausted()).expect("semaphore lock poisoned")
}

/// The wait that `acquire` reports: the nanoseconds measured when it had to
/// block, zero when a permit was free at once.
pub fn reported_wait(blocked: bool, waited_ns: u64) -> (r: u64)
    ensures
        r == if blocked {
            waited_ns
        } else {
            0
        },
{
    if blocked {
        waited_ns
    } else {
        0
    }
}

/// A blocking counting semaphore.
pub struct Semaphore {
    pool: Mutex<PermitPool>,
    cv: Condvar,
}

impl Semaphore {
    /// A semaphore with `permits` free permits.
    pub fn new(permits: usize) -> Semaphore
        requires
            permits > 0,
    {
        Semaphore { pool: Mutex::new(PermitPool::full(permits)), cv: Condvar::new() }
    }

    /// Takes one permit, blocking while none is free. Returns the nanoseconds
    /// spent blocked, or zero when a permit was free at once.
    pub fn acquire(&self) -> u64 {
        let start = Instant::now();
        let blocked = {
            let mut g = lock_mutex(&self.pool);
            let before = read_pool(&g);
            let blocked = before.is_exhausted();
            if blocked {
                g = wait_until_free(&self.cv, g);
            }
            let p = read_pool(&g);
            write_pool(&mut g, p.taken());
            blocked
        };
        reported_wait(blocked, nanos_since(&start))
    }

    /// Gives one permit back and wakes one waiter.
    pub fn release(&self)
        opens_invariants none
        no_unwind
    {
        {
            let mut g = lock_mutex(&self.pool);
            let p = read_pool(&g);
            write_pool(&mut g, p.returned());
        }
        wake_one(&self.cv);
    }
}

/// A permit taken from a semaphore, given back when the value goes out of
/// scope on every path, unwinding included.
pub struct Permit<'a> {
    sem: &'a Semaphore,
}

impl<'a> Permit<'a> {
    /// Takes a permit from `sem`, blocking while none is free; also returns the
    /// nanoseconds spent blocked.
    pub fn take(sem: &'a Semaphore) -> (Permit<'a>, u64) {
        let waited_ns = sem.acquire();
        (Permit { sem }, waited_ns)
    }
}

impl<'a> Drop for Permit<'a> {
    fn drop(&mut self)
        opens_invariants none
        no_unwind
    {
        self.sem.release();
    }
}

} // verus!
