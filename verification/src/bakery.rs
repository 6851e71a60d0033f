//! The decisions of Lamport's bakery lock: which ticket a thread draws, and
//! which of two threads goes first.

use vstd::prelude::*;

verus! {

/// The number of threads that share a bakery lock.
pub const NUM_THREADS: usize = 4;

/// The highest ticket among the first `n` entries; 0 if none of them holds one.
pub open spec fn highest(tickets: Seq<Option<u64>>, n: int) -> int
    decreases n,
{
    if n <= 0 {
        0
    } else {
        let rest = highest(tickets, n - 1);
        match tickets[n - 1] {
            Some(t) => if t > rest {
                t as int
            } else {
                rest
            },
            None => rest,
        }
    }
}

/// The highest ticket is at least every ticket held, and is held by some
/// thread unless it is 0.
pub proof fn lemma_highest(tickets: Seq<Option<u64>>, n: int)
    requires
        0 <= n <= tickets.len(),
    ensures
        forall|i: int| 0 <= i < n && tickets[i] is Some ==> (#[trigger] tickets[i])->0 <= highest(
            tickets,
            n,
        ),
        highest(tickets, n) == 0 || exists|i: int|
            0 <= i < n && #[trigger] tickets[i] == Some(highest(tickets, n) as u64),
        0 <= highest(tickets, n) <= u64::MAX,
    decreases n,
{
    if n > 0 {
        lemma_highest(tickets, n - 1);
    }
}

/// The ticket for a thread that comes in: one more than the highest ticket
/// held. `None` when that number does not fit.
pub fn next_ticket(tickets: &[Option<u64>; 4]) -> (r: Option<u64>)
    ensures
        r == if highest(tickets@, 4) < u64::MAX {
            Some((highest(tickets@, 4) + 1) as u64)
        } else {
            None
        },
        r matches Some(t) ==> forall|i: int|
            0 <= i < 4 && tickets[i] is Some ==> (#[trigger] tickets[i])->0 < t,
{
    let mut max: u64 = 0;
    let mut i: usize = 0;
    while i < NUM_THREADS
        invariant
            i <= NUM_THREADS,
            max == highest(tickets@, i as int),
        decreases NUM_THREADS - i,
    {
        if let Some(t) = tickets[i] {
            if t > max {
                max = t;
            }
        }
        i = i + 1;
    }
    proof {
        lemma_highest(tickets@, 4);
    }
    max.checked_add(1)
}

/// The holder of `ticket`, thread `idx`, goes before thread `i`, whose ticket
/// is `other`: it does if thread `i` holds no ticket, or a higher one, or the
/// same one with a higher thread number.
pub open spec fn before(ticket: u64, idx: usize, other: Option<u64>, i: usize) -> bool {
    match other {
        Some(t) => ticket < t || (ticket == t && idx < i),
        None => true,
    }
}

/// Tells whether thread `idx` with `ticket` need not wait for thread `i`,
/// whose ticket is `other`.
pub fn goes_first(ticket: u64, idx: usize, other: Option<u64>, i: usize) -> (r: bool)
    ensures
        r == before(ticket, idx, other, i),
{
    match other {
        Some(t) => ticket < t || (ticket == t && idx < i),
        None => true,
    }
}

/// Of two different threads that both hold a ticket, exactly one goes before
/// the other: they are never both let into the critical section.
pub proof fn lemma_one_goes_first(a: u64, i: usize, b: u64, j: usize)
    requires
        i != j,
    ensures
        before(a, i, Some(b), j) != before(b, j, Some(a), i),
{
}

/// Going first is an order: a thread that goes before a second one, which
/// goes before a third, goes before the third.
pub proof fn lemma_before_is_transitive(a: u64, i: usize, b: u64, j: usize, c: u64, k: usize)
    requires
        before(a, i, Some(b), j),
        before(b, j, Some(c), k),
    ensures
        before(a, i, Some(c), k),
{
}

/// A ticket drawn after another thread's is the higher one: a thread that
/// came in earlier is not overtaken.
pub proof fn lemma_earlier_ticket_goes_first(tickets: Seq<Option<u64>>, i: int, idx: usize)
    requires
        tickets.len() == 4,
        0 <= i < 4,
        tickets[i] is Some,
        highest(tickets, 4) < u64::MAX,
    ensures
        before(tickets[i]->0, i as usize, Some((highest(tickets, 4) + 1) as u64), idx),
{
    lemma_highest(tickets, 4);
}

} // verus!
