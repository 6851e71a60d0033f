use conc::context::Context;
use conc::context::Registers;
use conc::context::StackRegion;
use conc::context::PAGE_SIZE;
use conc::green::claim_id;
use conc::green::get_id;
use conc::green::is_stack_fresh;
use conc::green::lowest_free_id;
use conc::green::recv;
use conc::green::rm_unused_stack;
use conc::green::schedule;
use conc::green::send;
use conc::green::shutdown;
use conc::green::spawn;
use conc::green::spawn_from_main;
use conc::green::take_message;
use conc::green::thread_exit;
use conc::green::Received;
use conc::green::Runtime;
use conc::green::StartError;
use conc::green::Transfer;
use std::collections::HashSet;

fn stack(n: u64) -> StackRegion {
    StackRegion::new(0x10_0000 * (n + 1), 0x8000).unwrap()
}

fn started() -> (Runtime<u32>, u64) {
    let mut rt: Runtime<u32> = Runtime::new(0xABC0);
    let t = spawn_from_main(&mut rt, 0, stack(0)).unwrap();
    match t {
        Transfer::Start { to } => (rt, to),
        other => panic!("unexpected switch {:?}", other),
    }
}

#[test]
fn stack_region_accepts_only_usable_blocks() {
    assert_eq!(StackRegion::new(0, 0x8000), None);
    assert_eq!(StackRegion::new(0x1001, 0x8000), None);
    assert_eq!(StackRegion::new(0x1000, PAGE_SIZE), None);
    assert_eq!(StackRegion::new(0x1000, 0), None);
    assert_eq!(StackRegion::new(u64::MAX - 4095, 0x2000), None);
    assert_eq!(
        StackRegion::new(0x1000, PAGE_SIZE + 1),
        Some(StackRegion { base: 0x1000, size: PAGE_SIZE + 1 })
    );
}

#[test]
fn stack_regions_overlap_or_not() {
    let a = StackRegion::new(0x10000, 0x2000).unwrap();
    let b = StackRegion::new(0x12000, 0x2000).unwrap();
    let c = StackRegion::new(0x11000, 0x2000).unwrap();
    assert!(a.is_disjoint(&b));
    assert!(b.is_disjoint(&a));
    assert!(!a.is_disjoint(&c));
    assert!(!c.is_disjoint(&b));
    assert!(!a.is_disjoint(&a));
}

#[test]
fn new_context_starts_at_the_top_of_its_stack() {
    let s = StackRegion::new(0x20000, 0x3000).unwrap();
    let c = Context::new(7u8, s, 99, 0x1234);
    assert_eq!(c.id, 99);
    assert_eq!(c.entry, 7);
    assert_eq!(c.stack, s);
    assert_eq!(c.regs.sp, 0x23000);
    assert_eq!(c.regs.x30, 0x1234);
    assert_eq!(*c.get_regs(), Registers::new(0x23000, 0x1234));
    assert_eq!(c.regs.x19, 0);
    assert_eq!(c.regs.d8, 0);
}

#[test]
fn registers_can_be_written_through_the_context() {
    let s = StackRegion::new(0x20000, 0x3000).unwrap();
    let mut c = Context::new((), s, 1, 0x1234);
    c.get_regs_mut().sp = 0x22ff0;
    c.get_regs_mut().x19 = 5;
    assert_eq!(c.get_regs().sp, 0x22ff0);
    assert_eq!(c.get_regs().x19, 5);
    assert_eq!(c.get_regs().x30, 0x1234);
}

#[test]
fn claim_id_takes_only_unused_identifiers() {
    let mut ids: HashSet<u64> = HashSet::new();
    assert!(claim_id(&mut ids, 5));
    assert!(!claim_id(&mut ids, 5));
    assert!(claim_id(&mut ids, 6));
    assert_eq!(ids.len(), 2);
    assert!(ids.contains(&5) && ids.contains(&6));
}

#[test]
fn get_id_gives_distinct_identifiers() {
    let mut ids: HashSet<u64> = HashSet::new();
    let mut seen = Vec::new();
    for n in 0..1000 {
        let id = get_id(&mut ids);
        assert!(!seen.contains(&id));
        seen.push(id);
        assert_eq!(ids.len(), n + 1);
        assert!(ids.contains(&id));
    }
}

#[test]
fn idle_runtime_is_empty() {
    let rt: Runtime<u32> = Runtime::new(1);
    assert!(!rt.is_started());
    assert_eq!(rt.ready_len(), 0);
    assert_eq!(rt.ready_ids(), Vec::<u64>::new());
    assert_eq!(rt.unused_stack(), None);
    assert!(rt.host_regs().is_none());
}

#[test]
fn spawn_from_main_installs_the_first_thread() {
    let (rt, first) = started();
    assert!(rt.is_started());
    assert_eq!(rt.ready_ids(), vec![first]);
    assert!(rt.is_live(first));
    assert!(!rt.is_blocked(first));
    assert_eq!(rt.current().id, first);
    assert_eq!(rt.current().entry, 0);
    assert_eq!(rt.current().stack, stack(0));
    assert_eq!(rt.current().regs, Registers::new(stack(0).base + 0x8000, 0xABC0));
    assert_eq!(rt.host_regs(), Some(&Registers::new(0, 0xABC0)));
}

#[test]
fn spawn_from_main_twice_is_refused() {
    let (mut rt, first) = started();
    let again = spawn_from_main(&mut rt, 1, stack(1));
    assert_eq!(again, Err(StartError::AlreadyStarted));
    assert_eq!(rt.ready_ids(), vec![first]);
}

#[test]
fn schedule_alone_stays() {
    let (mut rt, first) = started();
    assert_eq!(schedule(&mut rt), Transfer::Stay);
    assert_eq!(rt.ready_ids(), vec![first]);
}

#[test]
fn spawn_appends_and_yields() {
    let (mut rt, first) = started();
    let (second, t) = spawn(&mut rt, 1, stack(1));
    assert_ne!(first, second);
    assert_eq!(t, Transfer::Yield { from: first, to: second });
    assert_eq!(rt.ready_ids(), vec![second, first]);
    let (third, t) = spawn(&mut rt, 2, stack(2));
    assert_eq!(t, Transfer::Yield { from: second, to: first });
    assert_eq!(rt.ready_ids(), vec![first, third, second]);
    assert!(rt.is_live(first) && rt.is_live(second) && rt.is_live(third));
    assert_eq!(rt.current().stack, stack(0));
}

#[test]
fn schedule_rotates_the_run_queue() {
    let (mut rt, a) = started();
    let (b, _) = spawn(&mut rt, 1, stack(1));
    let (c, _) = spawn(&mut rt, 2, stack(2));
    assert_eq!(rt.ready_ids(), vec![a, c, b]);
    assert_eq!(schedule(&mut rt), Transfer::Yield { from: a, to: c });
    assert_eq!(rt.ready_ids(), vec![c, b, a]);
    assert_eq!(schedule(&mut rt), Transfer::Yield { from: c, to: b });
    assert_eq!(schedule(&mut rt), Transfer::Yield { from: b, to: a });
    assert_eq!(rt.ready_ids(), vec![a, c, b]);
}

#[test]
fn used_stack_is_not_fresh() {
    let (mut rt, _) = started();
    assert!(!is_stack_fresh(&rt, &stack(0)));
    assert!(is_stack_fresh(&rt, &stack(1)));
    let overlapping = StackRegion::new(stack(0).base + 0x4000, 0x8000).unwrap();
    assert!(!is_stack_fresh(&rt, &overlapping));
    let (b, _) = spawn(&mut rt, 1, stack(1));
    assert!(!is_stack_fresh(&rt, &stack(1)));
    assert_eq!(rt.current().id, b);
    // b blocks; its stack is still in use
    assert!(matches!(recv(&mut rt), Received::Wait(_)));
    assert!(rt.is_blocked(b));
    assert!(!is_stack_fresh(&rt, &stack(1)));
    // the running thread ends; its stack waits to be released and is still not fresh
    thread_exit(&mut rt);
    assert_eq!(rt.unused_stack(), Some(stack(0)));
    assert!(!is_stack_fresh(&rt, &stack(0)));
    assert_eq!(rm_unused_stack(&mut rt), Some(stack(0)));
    assert!(is_stack_fresh(&rt, &stack(0)));
}

#[test]
fn thread_exit_defers_the_release_of_its_stack() {
    let (mut rt, a) = started();
    let (b, _) = spawn(&mut rt, 1, stack(1));
    assert_eq!(rt.ready_ids(), vec![b, a]);
    let (earlier, t) = thread_exit(&mut rt);
    assert_eq!(earlier, None);
    assert_eq!(t, Transfer::Jump { to: a });
    assert!(!rt.is_live(b));
    assert!(rt.is_live(a));
    assert_eq!(rt.unused_stack(), Some(stack(1)));
    assert_eq!(rt.ready_ids(), vec![a]);
    assert_eq!(rm_unused_stack(&mut rt), Some(stack(1)));
    assert_eq!(rm_unused_stack(&mut rt), None);
    let (earlier, t) = thread_exit(&mut rt);
    assert_eq!(earlier, None);
    assert_eq!(t, Transfer::Host);
    assert_eq!(shutdown(&mut rt), Some(stack(0)));
    assert!(!rt.is_started());
    assert!(!rt.is_live(a));
}

#[test]
fn thread_exit_hands_out_a_stack_that_still_waits() {
    let (mut rt, a) = started();
    let (b, _) = spawn(&mut rt, 1, stack(1));
    let (c, _) = spawn(&mut rt, 2, stack(2));
    assert_eq!(rt.ready_ids(), vec![a, c, b]);
    // a ends; c starts for the first time and ends at once, before any clean-up
    let (earlier, t) = thread_exit(&mut rt);
    assert_eq!((earlier, t), (None, Transfer::Jump { to: c }));
    let (earlier, t) = thread_exit(&mut rt);
    assert_eq!((earlier, t), (Some(stack(0)), Transfer::Jump { to: b }));
    assert_eq!(rt.unused_stack(), Some(stack(2)));
}

#[test]
fn message_that_waits_is_received_at_once() {
    let (mut rt, a) = started();
    assert_eq!(send(&mut rt, a, 11), Transfer::Stay);
    assert_eq!(send(&mut rt, a, 12), Transfer::Stay);
    assert_eq!(recv(&mut rt), Received::Message(11));
    assert_eq!(recv(&mut rt), Received::Message(12));
    assert_eq!(recv(&mut rt), Received::Deadlock);
    assert_eq!(rt.ready_ids(), vec![a]);
    assert_eq!(take_message(&mut rt), None);
}

#[test]
fn send_wakes_a_blocked_receiver() {
    let (mut rt, a) = started();
    let (b, _) = spawn(&mut rt, 1, stack(1));
    assert_eq!(rt.ready_ids(), vec![b, a]);
    assert_eq!(recv(&mut rt), Received::Wait(Transfer::Yield { from: b, to: a }));
    assert!(rt.is_blocked(b));
    assert!(rt.is_live(b));
    assert_eq!(rt.ready_ids(), vec![a]);
    assert_eq!(send(&mut rt, b, 77), Transfer::Yield { from: a, to: b });
    assert!(!rt.is_blocked(b));
    assert_eq!(rt.ready_ids(), vec![b, a]);
    assert_eq!(take_message(&mut rt), Some(77));
    assert_eq!(take_message(&mut rt), None);
}

#[test]
fn messages_to_an_unknown_thread_are_kept() {
    let (mut rt, a) = started();
    let nobody = a.wrapping_add(1);
    assert_eq!(send(&mut rt, nobody, 5), Transfer::Stay);
    assert!(!rt.is_live(nobody));
    assert_eq!(recv(&mut rt), Received::Deadlock);
}

#[test]
fn mailboxes_are_first_in_first_out_per_receiver() {
    let (mut rt, a) = started();
    let (b, _) = spawn(&mut rt, 1, stack(1));
    // b runs: sends to a and to itself, interleaved
    assert_eq!(rt.current().id, b);
    send(&mut rt, a, 1);
    // a runs
    send(&mut rt, b, 100);
    // b runs
    send(&mut rt, a, 2);
    // a runs
    send(&mut rt, b, 200);
    // b runs
    send(&mut rt, a, 3);
    assert_eq!(rt.current().id, a);
    assert_eq!(recv(&mut rt), Received::Message(1));
    assert_eq!(recv(&mut rt), Received::Message(2));
    assert_eq!(recv(&mut rt), Received::Message(3));
    schedule(&mut rt);
    assert_eq!(rt.current().id, b);
    assert_eq!(recv(&mut rt), Received::Message(100));
    assert_eq!(recv(&mut rt), Received::Message(200));
}

#[test]
fn live_identifiers_are_the_ready_and_the_blocked_ones() {
    let (mut rt, a) = started();
    let mut all = vec![a];
    for n in 1..20u64 {
        let (id, _) = spawn(&mut rt, n as u32, stack(n));
        all.push(id);
    }
    // let some threads block
    for _ in 0..7 {
        assert!(matches!(recv(&mut rt), Received::Wait(_)));
    }
    // and one end
    let gone = rt.current().id;
    thread_exit(&mut rt);
    let ready = rt.ready_ids();
    let mut seen = HashSet::new();
    for id in &all {
        let in_ready = ready.contains(id);
        let blocked = rt.is_blocked(*id);
        assert!(!(in_ready && blocked));
        assert_eq!(rt.is_live(*id), in_ready || blocked);
        assert_eq!(rt.is_live(*id), *id != gone);
        assert!(seen.insert(*id));
    }
    assert_eq!(ready.len(), 20 - 7 - 1);
}

#[test]
fn shutdown_forgets_everything() {
    let (mut rt, a) = started();
    let (b, _) = spawn(&mut rt, 1, stack(1));
    send(&mut rt, a, 1);
    shutdown(&mut rt);
    assert!(!rt.is_started());
    assert_eq!(rt.ready_len(), 0);
    assert!(!rt.is_live(a) && !rt.is_live(b));
    // a second start finds no message of the first run
    let t = spawn_from_main(&mut rt, 9, stack(0)).unwrap();
    assert!(matches!(t, Transfer::Start { .. }));
    assert_eq!(recv(&mut rt), Received::Deadlock);
}

#[test]
fn threads_are_found_wherever_they_are() {
    let (mut rt, a) = started();
    let (b, _) = spawn(&mut rt, 1, stack(1));
    assert!(matches!(recv(&mut rt), Received::Wait(_)));
    // a runs, b is blocked
    assert_eq!(rt.find(a).map(|c| (c.id, c.entry, c.stack)), Some((a, 0, stack(0))));
    assert_eq!(rt.find(b).map(|c| (c.id, c.entry, c.stack)), Some((b, 1, stack(1))));
    let nobody = a ^ b ^ 1;
    if nobody != a && nobody != b {
        assert!(rt.find(nobody).is_none());
    }
    thread_exit(&mut rt);
    assert!(rt.find(a).is_none());
    assert!(rt.find(b).is_some());
}

#[test]
fn lowest_free_identifier_skips_those_in_use() {
    let mut ids: HashSet<u64> = HashSet::new();
    assert_eq!(lowest_free_id(&ids), 0);
    for id in [0, 1, 2, 5, u64::MAX] {
        ids.insert(id);
    }
    assert_eq!(lowest_free_id(&ids), 3);
    ids.insert(3);
    assert_eq!(lowest_free_id(&ids), 4);
    ids.insert(4);
    assert_eq!(lowest_free_id(&ids), 6);
    ids.remove(&0);
    assert_eq!(lowest_free_id(&ids), 0);
}
