//! A lock that is one flag. The attempt is here; trying again is the
//! caller's part.

use std::sync::atomic::AtomicBool;
use std::sync::atomic::Ordering;
use vstd::prelude::*;

verus! {

/// A lock that is taken by setting a flag, and waited for by trying again.
pub struct SpinLock<T> {
    lock: AtomicBool,
    data: T,
}

/// The proof that a lock is held.
pub struct SpinLockGuard<'a, T> {
    spin_lock: &'a SpinLock<T>,
}

impl<T> SpinLock<T> {
    /// What the lock guards.
    pub closed spec fn data(self) -> T {
        self.data
    }

    /// A free lock round `v`.
    pub fn new(v: T) -> (r: Self)
        ensures
            r.data() == v,
    {
        SpinLock { lock: AtomicBool::new(false), data: v }
    }

    /// One attempt to take the lock: it is taken if it was seen free and no
    /// other thread was faster. To be repeated until it gives a guard.
    pub fn try_lock(&self) -> (r: Option<SpinLockGuard<'_, T>>)
        ensures
            r matches Some(guard) ==> guard.lock() == *self,
    {
        if self.lock.load(Ordering::Relaxed) {
            return None;
        }
        match self.lock.compare_exchange_weak(false, true, Ordering::Acquire, Ordering::Relaxed) {
            Ok(_) => Some(SpinLockGuard { spin_lock: self }),
            Err(_) => None,
        }
    }
}

impl<'a, T> SpinLockGuard<'a, T> {
    /// The lock that is held.
    pub closed spec fn lock(self) -> SpinLock<T> {
        *self.spin_lock
    }

    /// What the lock guards.
    pub fn get(&self) -> (r: &T)
        ensures
            *r == self.lock().data(),
    {
        &self.spin_lock.data
    }

    /// Sets the lock free.
    pub fn unlock(self) {
        self.spin_lock.lock.store(false, Ordering::Release);
    }
}

} // verus!
