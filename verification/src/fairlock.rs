//! A spin lock that is handed round a fixed number of threads in turn.
//! The steps are here; waiting between them is the caller's part.

use crate::fences::acquire_fence;
use std::sync::atomic::AtomicBool;
use std::sync::atomic::AtomicUsize;
use std::sync::atomic::Ordering;
use vstd::prelude::*;

verus! {

/// The number of threads that can share a lock. A power of two.
pub const NUM_LOCK: usize = 8;

/// The low bits of a number that give it modulo `NUM_LOCK`.
pub const MASK: usize = 7;

/// The thread after `idx`, round the table.
pub fn successor(idx: usize) -> (r: usize)
    requires
        idx < NUM_LOCK,
    ensures
        r == (idx + 1) % 8,
        r < NUM_LOCK,
{
    let n: usize = idx + 1;
    assert(n & 7usize == n % 8usize) by (bit_vector);
    n & MASK
}

/// The thread that is served first when thread `idx` gives the lock up while
/// the turn is at `turn`: the turn moves on only if it was `idx`'s own.
pub fn next_turn(turn: usize, idx: usize) -> (r: usize)
    requires
        turn < NUM_LOCK,
        idx < NUM_LOCK,
    ensures
        r == if turn == idx {
            (turn + 1) % 8
        } else {
            turn as int
        },
        r < NUM_LOCK,
{
    if turn == idx {
        successor(turn)
    } else {
        turn
    }
}

/// A number as a thread's number: its value modulo `NUM_LOCK`.
pub fn wrapped(n: usize) -> (r: usize)
    ensures
        r == n % 8,
        r < NUM_LOCK,
{
    assert(n & 7usize == n % 8usize) by (bit_vector);
    n & MASK
}

/// A spin lock that is fair to a fixed number of threads: a thread that
/// waits is handed the lock by the thread that gives it up, in turn.
pub struct FairLock<T> {
    waiting: Vec<AtomicBool>,
    lock: AtomicBool,
    turn: AtomicUsize,
    data: T,
}

/// The claim of thread `idx` on a lock, from the moment it began to wait.
pub struct FairLockGuard<'a, T> {
    fair_lock: &'a FairLock<T>,
    idx: usize,
}

impl<T> FairLock<T> {
    #[verifier::type_invariant]
    spec fn inv(self) -> bool {
        self.waiting@.len() == NUM_LOCK
    }

    /// What the lock guards.
    pub closed spec fn data(self) -> T {
        self.data
    }

    /// A free lock round `v`, with no thread waiting and the turn at thread 0.
    pub fn new(v: T) -> (r: Self)
        ensures
            r.data() == v,
    {
        let mut vec: Vec<AtomicBool> = Vec::new();
        let mut i: usize = 0;
        while i < NUM_LOCK
            invariant
                i <= NUM_LOCK,
                vec@.len() == i,
            decreases NUM_LOCK - i,
        {
            vec.push(AtomicBool::new(false));
            i = i + 1;
        }
        FairLock {
            waiting: vec,
            lock: AtomicBool::new(false),
            data: v,
            turn: AtomicUsize::new(0),
        }
    }

    /// Thread `idx` begins to wait for the lock. The claim that comes back
    /// holds the lock once `try_acquire` has said so.
    pub fn lock(&self, idx: usize) -> (guard: FairLockGuard<'_, T>)
        requires
            idx < NUM_LOCK,
        ensures
            guard.index() == idx,
            guard.lock() == *self,
    {
        proof {
            use_type_invariant(self);
        }
        self.waiting[idx].store(true, Ordering::Relaxed);
        FairLockGuard { fair_lock: self, idx }
    }
}

impl<'a, T> FairLockGuard<'a, T> {
    #[verifier::type_invariant]
    spec fn inv(self) -> bool {
        self.idx < NUM_LOCK
    }

    /// The number of the thread that waits or holds.
    pub closed spec fn index(self) -> usize {
        self.idx
    }

    /// The lock that is waited for or held.
    pub closed spec fn lock(self) -> FairLock<T> {
        *self.fair_lock
    }

    /// One attempt to get the lock: it is had when the thread before handed
    /// it over, or when it was free and this thread was first to take it.
    /// Tells whether the lock is held now. To be repeated until it is.
    pub fn try_acquire(&self) -> (held: bool) {
        proof {
            use_type_invariant(self);
            use_type_invariant(self.fair_lock);
        }
        let fl = self.fair_lock;
        let held = if !fl.waiting[self.idx].load(Ordering::Relaxed) {
            true
        } else if !fl.lock.load(Ordering::Relaxed) {
            fl.lock.compare_exchange_weak(false, true, Ordering::Relaxed, Ordering::Relaxed).is_ok()
        } else {
            false
        };
        if held {
            acquire_fence();
        }
        held
    }

    /// What the lock guards. To be read only while the lock is held.
    pub fn get(&self) -> (r: &T)
        ensures
            *r == self.lock().data(),
    {
        &self.fair_lock.data
    }

    /// Gives the lock up. If the thread whose turn it is waits, the lock is
    /// handed to it; otherwise the lock is set free and the turn moves on.
    pub fn unlock(self) {
        proof {
            use_type_invariant(&self);
            use_type_invariant(self.fair_lock);
        }
        let fl = self.fair_lock;
        fl.waiting[self.idx].store(false, Ordering::Relaxed);
        let turn = wrapped(fl.turn.load(Ordering::Relaxed));
        let next = next_turn(turn, self.idx);
        if fl.waiting[next].load(Ordering::Relaxed) {
            fl.turn.store(next, Ordering::Relaxed);
            fl.waiting[next].store(false, Ordering::Release);
        } else {
            fl.turn.store(successor(next), Ordering::Relaxed);
            fl.lock.store(false, Ordering::Release);
        }
    }
}

/// What a thread does with a lock, as mathematics.
pub ghost enum Phase {
    /// Nothing.
    Idle,
    /// It waits for the lock.
    Trying,
    /// It holds the lock.
    Holding,
}

/// The state of a lock and of the threads round it, as mathematics.
pub ghost struct Table {
    /// Which threads have said that they wait and were not served since.
    pub waiting: Seq<bool>,
    /// The lock is taken.
    pub lock: bool,
    /// The thread that is served first.
    pub turn: int,
    /// What each thread does.
    pub phase: Seq<Phase>,
}

impl Table {
    /// A free lock with no thread round it.
    pub open spec fn fresh() -> Table {
        Table {
            waiting: Seq::new(8, |i: int| false),
            lock: false,
            turn: 0,
            phase: Seq::new(8, |i: int| Phase::Idle),
        }
    }

    /// The lock is thread `i`'s: it holds it, or it waits and was handed it.
    pub open spec fn owner(self, i: int) -> bool {
        0 <= i < 8 && (self.phase[i] == Phase::Holding || (self.phase[i] == Phase::Trying
            && !self.waiting[i]))
    }

    /// What holds of a lock at all times: the lock is taken exactly when it
    /// is some thread's, it is never two threads', and only a thread that
    /// waits or holds has said that it waits.
    pub open spec fn wf(self) -> bool {
        &&& self.waiting.len() == 8
        &&& self.phase.len() == 8
        &&& 0 <= self.turn < 8
        &&& forall|i: int| 0 <= i < 8 && #[trigger] self.waiting[i] ==> self.phase[i] != Phase::Idle
        &&& forall|i: int, j: int| #[trigger] self.owner(i) && #[trigger] self.owner(j) ==> i == j
        &&& self.lock <==> exists|i: int| #[trigger] self.owner(i)
    }

    /// Thread `i`, which does nothing, begins to wait: what `lock` does.
    pub open spec fn request(self, i: int) -> Table {
        Table {
            waiting: self.waiting.update(i, true),
            phase: self.phase.update(i, Phase::Trying),
            ..self
        }
    }

    /// Thread `i` can stop waiting: it was handed the lock, or the lock is free.
    pub open spec fn can_enter(self, i: int) -> bool {
        0 <= i < 8 && self.phase[i] == Phase::Trying && (!self.waiting[i] || !self.lock)
    }

    /// Thread `i` gets the lock: what a successful `try_acquire` does.
    pub open spec fn enter(self, i: int) -> Table {
        Table { lock: true, phase: self.phase.update(i, Phase::Holding), ..self }
    }

    /// The thread that is served first when thread `i` gives the lock up.
    pub open spec fn heir(self, i: int) -> int {
        if self.turn == i {
            (self.turn + 1) % 8
        } else {
            self.turn
        }
    }

    /// Thread `i` gives the lock up: what `unlock` does. If its heir waits,
    /// the lock is handed over; otherwise it is set free.
    pub open spec fn leave(self, i: int) -> Table {
        let next = self.heir(i);
        let waiting = self.waiting.update(i, false);
        let phase = self.phase.update(i, Phase::Idle);
        if waiting[next] {
            Table { waiting: waiting.update(next, false), turn: next, phase, ..self }
        } else {
            Table { waiting, turn: (next + 1) % 8, lock: false, phase, ..self }
        }
    }
}

/// The lock is held by one thread at most, whatever the threads do: beginning
/// to wait, getting the lock and giving it up all keep the table well formed.
pub proof fn lemma_one_holder_at_most(t: Table, i: int)
    requires
        t.wf(),
        0 <= i < 8,
    ensures
        Table::fresh().wf(),
        t.phase[i] == Phase::Idle ==> t.request(i).wf(),
        t.can_enter(i) ==> t.enter(i).wf() && t.enter(i).phase[i] == Phase::Holding,
        t.phase[i] == Phase::Holding ==> t.leave(i).wf(),
        forall|a: int, b: int|
            0 <= a < 8 && 0 <= b < 8 && t.phase[a] == Phase::Holding && t.phase[b]
                == Phase::Holding ==> a == b,
{
    if t.phase[i] == Phase::Idle {
        let r = t.request(i);
        assert forall|k: int| r.owner(k) <==> t.owner(k) by {}
    }
    if t.can_enter(i) {
        let r = t.enter(i);
        assert(r.owner(i));
        if t.lock {
            assert forall|k: int| r.owner(k) <==> t.owner(k) by {}
        } else {
            assert forall|k: int| r.owner(k) implies k == i by {
                if k != i {
                    assert(t.owner(k));
                }
            }
        }
    }
    if t.phase[i] == Phase::Holding {
        let r = t.leave(i);
        let next = t.heir(i);
        assert(t.owner(i));
        if t.waiting.update(i, false)[next] {
            assert(r.owner(next));
            assert forall|k: int| r.owner(k) implies k == next by {
                if k != next && k != i {
                    assert(t.owner(k));
                }
            }
        } else {
            assert forall|k: int| !r.owner(k) by {
                if k != i && r.owner(k) {
                    assert(t.owner(k));
                }
            }
        }
    }
    assert forall|a: int, b: int|
        0 <= a < 8 && 0 <= b < 8 && t.phase[a] == Phase::Holding && t.phase[b]
            == Phase::Holding implies a == b by {
        assert(t.owner(a) && t.owner(b));
    }
}

/// A thread that waits when its turn comes is served next: the thread that
/// gives the lock up hands it to its heir, and no other thread can get it.
pub proof fn lemma_heir_is_served(t: Table, i: int)
    requires
        t.wf(),
        0 <= i < 8,
        t.phase[i] == Phase::Holding,
        t.waiting[t.heir(i)],
    ensures
        t.leave(i).can_enter(t.heir(i)),
        forall|k: int| t.leave(i).can_enter(k) ==> k == t.heir(i),
{
    let r = t.leave(i);
    let next = t.heir(i);
    lemma_one_holder_at_most(t, i);
    assert(r.owner(next));
    assert forall|k: int| r.can_enter(k) implies k == next by {
        if k != next {
            assert(r.owner(k));
        }
    }
}

} // verus!
