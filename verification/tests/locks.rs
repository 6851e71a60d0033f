use conc::fairlock::next_turn;
use conc::fairlock::successor;
use conc::fairlock::wrapped;
use conc::fairlock::FairLock;
use conc::fairlock::FairLockGuard;
use conc::fairlock::NUM_LOCK;
use conc::ticketlock::TicketLock;

#[test]
fn successor_goes_round_the_table() {
    for i in 0..NUM_LOCK - 1 {
        assert_eq!(successor(i), i + 1);
    }
    assert_eq!(successor(NUM_LOCK - 1), 0);
}

#[test]
fn turn_moves_on_only_from_its_owner() {
    assert_eq!(next_turn(3, 3), 4);
    assert_eq!(next_turn(7, 7), 0);
    assert_eq!(next_turn(3, 4), 3);
    assert_eq!(next_turn(0, 7), 0);
}

#[test]
fn wrapped_is_the_remainder() {
    assert_eq!(wrapped(0), 0);
    assert_eq!(wrapped(7), 7);
    assert_eq!(wrapped(8), 0);
    assert_eq!(wrapped(13), 5);
    assert_eq!(wrapped(usize::MAX), 7);
}

fn acquire_free(g: &FairLockGuard<'_, u32>) {
    // taking a free lock may fail spuriously, but not for ever
    let mut tries = 0;
    while !g.try_acquire() {
        tries += 1;
        assert!(tries < 1000);
    }
}

#[test]
fn fair_lock_is_handed_to_the_thread_whose_turn_it_is() {
    let lock = FairLock::new(42u32);
    let g0 = lock.lock(0);
    acquire_free(&g0);
    assert_eq!(*g0.get(), 42);
    let g1 = lock.lock(1);
    let g3 = lock.lock(3);
    assert!(!g1.try_acquire());
    assert!(!g3.try_acquire());
    // thread 0 gives up: the turn goes to thread 1, which waits
    g0.unlock();
    assert!(!g3.try_acquire());
    assert!(g1.try_acquire());
    // thread 1 gives up: thread 2 does not wait, so the lock is set free
    g1.unlock();
    acquire_free(&g3);
    let g2 = lock.lock(2);
    assert!(!g2.try_acquire());
    g3.unlock();
    // the turn was at 3; thread 4 does not wait, so the lock is free for thread 2
    acquire_free(&g2);
    g2.unlock();
}

#[test]
fn fair_lock_serves_waiting_threads_in_turn() {
    let lock = FairLock::new(0u32);
    let g0 = lock.lock(0);
    acquire_free(&g0);
    let g2 = lock.lock(2);
    let g1 = lock.lock(1);
    assert!(!g2.try_acquire());
    assert!(!g1.try_acquire());
    g0.unlock();
    // thread 1 is served before thread 2, though thread 2 asked first
    assert!(!g2.try_acquire());
    assert!(g1.try_acquire());
    g1.unlock();
    assert!(g2.try_acquire());
    g2.unlock();
}

#[test]
fn tickets_are_served_in_the_order_drawn() {
    let lock = TicketLock::new(String::from("data"));
    let a = lock.lock();
    let b = lock.lock();
    let c = lock.lock();
    assert!(a.try_acquire());
    assert!(!b.try_acquire());
    assert!(!c.try_acquire());
    assert_eq!(a.get(), "data");
    a.unlock();
    assert!(!c.try_acquire());
    assert!(b.try_acquire());
    b.unlock();
    assert!(c.try_acquire());
    c.unlock();
    let d = lock.lock();
    assert!(d.try_acquire());
}
