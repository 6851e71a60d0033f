//! A lock that serves threads in the order of the tickets they draw.
//! The steps are here; waiting between them is the caller's part.

use crate::fences::acquire_fence;
use std::sync::atomic::AtomicUsize;
use std::sync::atomic::Ordering;
use vstd::prelude::*;

verus! {

/// A lock that serves threads in the order in which they asked: each draws a
/// ticket, and the lock is held by the thread whose ticket is being served.
pub struct TicketLock<T> {
    ticket: AtomicUsize,
    turn: AtomicUsize,
    data: T,
}

/// A ticket drawn from a lock: the claim of one thread on it.
pub struct TicketLockGuard<'a, T> {
    ticket_lock: &'a TicketLock<T>,
    ticket: usize,
}

impl<T> TicketLock<T> {
    /// What the lock guards.
    pub closed spec fn data(self) -> T {
        self.data
    }

    /// A free lock round `v`: the next ticket and the ticket served are both 0.
    pub fn new(v: T) -> (r: Self)
        ensures
            r.data() == v,
    {
        TicketLock { ticket: AtomicUsize::new(0), turn: AtomicUsize::new(0), data: v }
    }

    /// Draws the next ticket. The claim that comes back holds the lock once
    /// `try_acquire` has said so.
    pub fn lock(&self) -> (guard: TicketLockGuard<'_, T>)
        ensures
            guard.lock() == *self,
    {
        let t = self.ticket.fetch_add(1, Ordering::Relaxed);
        TicketLockGuard { ticket_lock: self, ticket: t }
    }
}

impl<'a, T> TicketLockGuard<'a, T> {
    /// The lock that the ticket was drawn from.
    pub closed spec fn lock(self) -> TicketLock<T> {
        *self.ticket_lock
    }

    /// Tells whether this ticket is being served: whether the lock is held
    /// now. To be repeated until it is.
    pub fn try_acquire(&self) -> (held: bool) {
        let held = self.ticket_lock.turn.load(Ordering::Relaxed) == self.ticket;
        if held {
            acquire_fence();
        }
        held
    }

    /// What the lock guards. To be read only while the lock is held.
    pub fn get(&self) -> (r: &T)
        ensures
            *r == self.lock().data(),
    {
        &self.ticket_lock.data
    }

    /// Gives the lock up: the next ticket is served.
    pub fn unlock(self) {
        self.ticket_lock.turn.fetch_add(1, Ordering::Release);
    }
}

/// The tickets of a lock, as mathematics: how many were drawn and how many
/// were served to the end. Tickets are numbered from 0 in the order drawn.
pub ghost struct Tickets {
    pub drawn: nat,
    pub served: nat,
}

impl Tickets {
    /// No more tickets were served than were drawn.
    pub open spec fn wf(self) -> bool {
        self.served <= self.drawn
    }

    /// The state before any ticket was drawn.
    pub open spec fn fresh() -> Tickets {
        Tickets { drawn: 0, served: 0 }
    }

    /// The ticket `t` was drawn and its holder has not given the lock up.
    pub open spec fn pending(self, t: nat) -> bool {
        self.served <= t < self.drawn
    }

    /// The holder of ticket `t` holds the lock.
    pub open spec fn holds(self, t: nat) -> bool {
        self.pending(t) && t == self.served
    }

    /// One more ticket is drawn; it is the number that comes back from `lock`.
    pub open spec fn draw(self) -> Tickets {
        Tickets { drawn: self.drawn + 1, ..self }
    }

    /// The holder gives the lock up.
    pub open spec fn release(self) -> Tickets {
        Tickets { served: self.served + 1, ..self }
    }
}

/// At most one ticket holds the lock.
pub proof fn lemma_one_holder(s: Tickets, t: nat, u: nat)
    requires
        s.holds(t),
        s.holds(u),
    ensures
        t == u,
{
}

/// Tickets are served in the order drawn: when the holder gives the lock up,
/// the next pending ticket holds it, and a ticket drawn meanwhile does not
/// overtake one that is pending.
pub proof fn lemma_first_come_first_served(s: Tickets, t: nat)
    requires
        s.wf(),
        s.holds(t),
    ensures
        s.release().wf(),
        s.draw().wf(),
        s.draw().holds(t),
        !s.draw().holds(s.drawn),
        s.pending(t + 1) ==> s.release().holds(t + 1),
        forall|u: nat| s.release().holds(u) ==> u == t + 1,
{
}

} // verus!
