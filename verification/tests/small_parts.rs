use conc::bakery::goes_first;
use conc::bakery::next_ticket;
use conc::green::claim_id;
use conc::green::release_id;
use conc::hello::Hello;
use conc::hello::Polled;
use conc::hello::Word;
use conc::spinlock::SpinLock;
use conc::tl2::stripe_ok;
use conc::tl2::MEM_SIZE;
use std::collections::HashSet;

#[test]
fn first_ticket_is_one() {
    assert_eq!(next_ticket(&[None, None, None, None]), Some(1));
}

#[test]
fn next_ticket_is_one_more_than_the_highest() {
    assert_eq!(next_ticket(&[Some(3), None, Some(7), Some(5)]), Some(8));
    assert_eq!(next_ticket(&[None, None, None, Some(1)]), Some(2));
    assert_eq!(next_ticket(&[Some(9), Some(9), None, None]), Some(10));
    assert_eq!(next_ticket(&[Some(0), None, None, None]), Some(1));
}

#[test]
fn ticket_numbers_can_run_out() {
    assert_eq!(next_ticket(&[Some(u64::MAX), None, None, None]), None);
    assert_eq!(next_ticket(&[Some(u64::MAX - 1), None, None, None]), Some(u64::MAX));
}

#[test]
fn lower_ticket_goes_first() {
    assert!(goes_first(1, 3, Some(2), 0));
    assert!(!goes_first(2, 0, Some(1), 3));
    assert!(goes_first(1, 3, None, 0));
}

#[test]
fn equal_tickets_go_by_thread_number() {
    assert!(goes_first(4, 1, Some(4), 2));
    assert!(!goes_first(4, 2, Some(4), 1));
}

#[test]
fn exactly_one_of_two_threads_goes_first() {
    for a in 1..4u64 {
        for b in 1..4u64 {
            for i in 0..4usize {
                for j in 0..4usize {
                    if i != j {
                        assert_ne!(goes_first(a, i, Some(b), j), goes_first(b, j, Some(a), i));
                    }
                }
            }
        }
    }
}

#[test]
fn spin_lock_is_held_by_one_at_a_time() {
    let lock = SpinLock::new(7u8);
    let mut tries = 0;
    let guard = loop {
        // taking a free lock may fail spuriously, but not for ever
        if let Some(g) = lock.try_lock() {
            break g;
        }
        tries += 1;
        assert!(tries < 1000);
    };
    assert_eq!(*guard.get(), 7);
    assert!(lock.try_lock().is_none());
    assert!(lock.try_lock().is_none());
    guard.unlock();
    let mut again = None;
    for _ in 0..1000 {
        again = lock.try_lock();
        if again.is_some() {
            break;
        }
    }
    assert!(again.is_some());
}

#[test]
fn greeting_is_said_in_two_steps() {
    let mut hello = Hello::new();
    assert_eq!(hello.poll(), Polled::Pending(Word::Hello));
    assert_eq!(hello.poll(), Polled::Pending(Word::World));
    assert_eq!(hello.poll(), Polled::Ready);
    assert_eq!(hello.poll(), Polled::Ready);
}

#[test]
fn greeting_has_its_text() {
    assert_eq!(Word::Hello.text(), "Hello, ");
    assert_eq!(Word::World.text(), "World!");
    assert!(!Word::Hello.ends_line());
    assert!(Word::World.ends_line());
}

#[test]
fn stripes_start_at_multiples_of_eight_inside_the_memory() {
    assert!(stripe_ok(0));
    assert!(stripe_ok(8));
    assert!(stripe_ok(MEM_SIZE - 8));
    assert!(!stripe_ok(MEM_SIZE));
    assert!(!stripe_ok(MEM_SIZE - 7));
    assert!(!stripe_ok(1));
    assert!(!stripe_ok(12));
    assert!(!stripe_ok(usize::MAX));
    assert!(!stripe_ok(usize::MAX - 7));
}

#[test]
fn released_identifier_can_be_claimed_again() {
    let mut ids: HashSet<u64> = HashSet::new();
    assert!(claim_id(&mut ids, 1));
    assert!(claim_id(&mut ids, 2));
    release_id(&mut ids, 1);
    assert!(!ids.contains(&1));
    assert!(ids.contains(&2));
    assert!(claim_id(&mut ids, 1));
    release_id(&mut ids, 3);
    assert_eq!(ids.len(), 2);
}

#[test]
fn channel_holds_at_most_its_capacity() {
    let mut c = conc::channel::Channel::new(2);
    assert_eq!(c.len(), 0);
    assert!(!c.is_full());
    assert_eq!(c.try_send('a'), Ok(()));
    assert_eq!(c.try_send('b'), Ok(()));
    assert!(c.is_full());
    assert_eq!(c.try_send('c'), Err('c'));
    assert_eq!(c.len(), 2);
    assert_eq!(c.try_recv(), Some('a'));
    assert!(!c.is_full());
    assert_eq!(c.try_send('d'), Ok(()));
    assert_eq!(c.try_recv(), Some('b'));
    assert_eq!(c.try_recv(), Some('d'));
    assert_eq!(c.try_recv(), None);
    assert_eq!(c.len(), 0);
}

#[test]
fn channel_gives_values_in_the_order_sent() {
    let mut c = conc::channel::Channel::new(4);
    let mut got = Vec::new();
    for round in 0..10u32 {
        for k in 0..4 {
            assert_eq!(c.try_send(round * 4 + k), Ok(()));
        }
        assert_eq!(c.try_send(0), Err(0));
        while let Some(v) = c.try_recv() {
            got.push(v);
        }
    }
    assert_eq!(got, (0..40).collect::<Vec<u32>>());
}
