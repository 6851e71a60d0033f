use conc::banker::Banker;
use conc::banker::Resource;

#[test]
fn two_philosophers_never_deadlock() {
    let mut banker = Banker::<2, 2>::new([1, 1], [[1, 1], [1, 1]]);
    // philosopher 0 takes chopstick 0
    assert!(banker.take(0, 0));
    // philosopher 1 may not take chopstick 1: both would wait for ever
    assert!(!banker.take(1, 1));
    // nor chopstick 0, which is taken
    assert!(!banker.take(1, 0));
    // philosopher 0 gets the second chopstick and eats
    assert!(banker.take(0, 1));
    banker.release(0, 0);
    banker.release(0, 1);
    // now philosopher 1 can have both
    assert!(banker.take(1, 1));
    assert!(!banker.take(0, 0));
    assert!(banker.take(1, 0));
    banker.release(1, 1);
    banker.release(1, 0);
    assert!(banker.take(0, 0));
}

#[test]
fn take_checks_thread_and_resource_numbers() {
    let mut banker = Banker::<2, 2>::new([1, 1], [[1, 1], [1, 1]]);
    assert!(!banker.take(2, 0));
    assert!(!banker.take(0, 2));
    assert!(!banker.take(usize::MAX, usize::MAX));
    assert!(banker.take(1, 1));
}

#[test]
fn take_needs_a_free_unit() {
    let mut banker = Banker::<1, 2>::new([1], [[1], [1]]);
    assert!(banker.take(0, 0));
    assert!(!banker.take(1, 0));
    banker.release(0, 0);
    assert!(banker.take(1, 0));
}

#[test]
fn no_thread_gets_more_than_its_maximum() {
    let mut banker = Banker::<1, 1>::new([5], [[2]]);
    assert!(banker.take(0, 0));
    assert!(banker.take(0, 0));
    assert!(!banker.take(0, 0));
    banker.release(0, 0);
    assert!(banker.take(0, 0));
    assert!(!banker.take(0, 0));
}

#[test]
fn release_of_nothing_changes_nothing() {
    let mut banker = Banker::<2, 2>::new([1, 1], [[1, 1], [1, 1]]);
    banker.release(0, 0);
    banker.release(5, 0);
    banker.release(0, 5);
    // still exactly one unit of each: the second take of the same unit fails
    assert!(banker.take(0, 0));
    assert!(!banker.take(1, 0));
}

#[test]
fn refused_take_leaves_the_state_as_it_was() {
    let mut r = Resource::<2, 2>::new([1, 1], [[1, 1], [1, 1]]);
    assert!(r.is_safe());
    assert!(r.take(0, 0));
    assert!(r.is_safe());
    assert!(!r.take(1, 1));
    assert!(r.is_safe());
    // chopstick 1 is still free: thread 0 gets it
    assert!(r.take(0, 1));
    assert!(r.is_safe());
}

#[test]
fn safe_state_of_the_textbook_example() {
    // five threads, three kinds of resource: 10, 5 and 7 units in all
    let max = [[7, 5, 3], [3, 2, 2], [9, 0, 2], [2, 2, 2], [4, 3, 3]];
    let held = [[0, 1, 0], [2, 0, 0], [3, 0, 2], [2, 1, 1], [0, 0, 2]];
    let mut r = Resource::<3, 5>::new([10, 5, 7], max);
    for (id, row) in held.iter().enumerate() {
        for (res, n) in row.iter().enumerate() {
            for _ in 0..*n {
                assert!(r.take(id, res));
            }
        }
    }
    // free now: 3, 3, 2
    assert!(r.is_safe());
    // thread 1 asks for (1, 0, 2): granted
    assert!(r.take(1, 0));
    assert!(r.take(1, 2));
    assert!(r.take(1, 2));
    // free now: 2, 3, 0; thread 0 asks for two units of resource 1: the first
    // leaves a safe state, the second would not
    assert!(r.take(0, 1));
    assert!(!r.take(0, 1));
    assert!(r.is_safe());
    // a unit of resource 0 for thread 4 still leaves a safe state
    assert!(r.take(4, 0));
    assert!(r.is_safe());
}

#[test]
fn state_without_threads_is_safe() {
    let mut r = Resource::<2, 0>::new([1, 1], []);
    assert!(r.is_safe());
    assert!(!r.take(0, 0));
    r.release(0, 0);
    assert!(r.is_safe());
}

#[test]
fn state_without_resources_is_safe() {
    let mut r = Resource::<0, 3>::new([], [[], [], []]);
    assert!(r.is_safe());
    assert!(!r.take(0, 0));
}

#[test]
fn thread_that_may_ask_for_more_than_there_is_makes_every_state_unsafe() {
    let mut r = Resource::<1, 2>::new([2], [[3], [1]]);
    assert!(!r.is_safe());
    assert!(!r.take(1, 0));
    assert!(!r.take(0, 0));
}

#[test]
fn large_amounts_do_not_overflow() {
    let mut r = Resource::<1, 2>::new([usize::MAX], [[usize::MAX], [usize::MAX]]);
    assert!(r.is_safe());
    assert!(r.take(0, 0));
    // a unit for thread 1 would leave neither thread able to reach its maximum
    assert!(!r.take(1, 0));
    assert!(r.is_safe());
    r.release(0, 0);
    assert!(r.take(1, 0));
    r.release(1, 0);
    assert!(r.is_safe());
}
