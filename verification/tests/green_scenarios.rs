use conc::context::StackRegion;
use conc::green::recv;
use conc::green::rm_unused_stack;
use conc::green::schedule;
use conc::green::send;
use conc::green::shutdown;
use conc::green::spawn;
use conc::green::spawn_from_main;
use conc::green::take_message;
use conc::green::thread_exit;
use conc::green::Received;
use conc::green::Runtime;
use conc::green::Transfer;
use std::collections::HashMap;

const TRAMPOLINE: u64 = 0x4000;
const STACK_BYTES: usize = 2 * 1024 * 1024;

/// The bodies that the threads of these tests run.
#[derive(Clone, Copy, Debug, PartialEq, Eq)]
enum Body {
    Gaia,
    Mash,
    Ortega,
    Producer,
    Consumer,
    Lonely,
    Short,
}

/// Where a thread stands in its body.
struct Progress {
    body: Body,
    spawned: bool,
    rounds: u64,
    waiting_for_message: bool,
    child: u64,
}

/// A host that plays the CPU: it runs the thread at the front of the run
/// queue one step at a time and follows every switch that the runtime asks for.
struct Machine {
    rt: Runtime<Body>,
    progress: HashMap<u64, Progress>,
    next_stack: u64,
    freed: Vec<StackRegion>,
    printed: Vec<String>,
    received: Vec<u64>,
    deadlock: bool,
}

impl Machine {
    fn new() -> Machine {
        Machine {
            rt: Runtime::new(TRAMPOLINE),
            progress: HashMap::new(),
            next_stack: 0x1000_0000,
            freed: Vec::new(),
            printed: Vec::new(),
            received: Vec::new(),
            deadlock: false,
        }
    }

    fn new_stack(&mut self) -> StackRegion {
        let stack = StackRegion::new(self.next_stack, STACK_BYTES).unwrap();
        self.next_stack += 2 * STACK_BYTES as u64;
        stack
    }

    fn enter(&mut self, id: u64, body: Body) {
        self.progress.insert(
            id,
            Progress { body, spawned: false, rounds: 0, waiting_for_message: false, child: 0 },
        );
    }

    /// After a switch the thread that has the CPU frees the unused stack.
    fn landed(&mut self) {
        if let Some(stack) = rm_unused_stack(&mut self.rt) {
            self.freed.push(stack);
        }
    }

    fn follow(&mut self, t: Transfer, me: u64) {
        match t {
            Transfer::Stay => {}
            Transfer::Yield { from, to } => {
                assert_eq!(from, me);
                assert_eq!(self.rt.current().id, to);
                self.landed();
            }
            Transfer::Jump { to } => {
                assert_eq!(self.rt.current().id, to);
                self.landed();
            }
            Transfer::Host => {
                assert_eq!(self.rt.ready_len(), 0);
            }
            Transfer::Start { to } => {
                assert_eq!(self.rt.current().id, to);
            }
        }
    }

    fn spawn_child(&mut self, me: u64, body: Body) -> u64 {
        let stack = self.new_stack();
        assert!(conc::green::is_stack_fresh(&self.rt, &stack));
        let (id, t) = spawn(&mut self.rt, body, stack);
        self.enter(id, body);
        self.follow(t, me);
        id
    }

    fn exit(&mut self, me: u64) {
        let (earlier, t) = thread_exit(&mut self.rt);
        if let Some(stack) = earlier {
            self.freed.push(stack);
        }
        self.progress.remove(&me);
        self.follow(t, me);
    }

    /// Runs the thread at the front of the run queue up to its next switch.
    fn step(&mut self) {
        let me = self.rt.current().id;
        let body = self.progress[&me].body;
        assert_eq!(self.rt.current().entry, body);
        match body {
            Body::Gaia | Body::Mash | Body::Ortega => {
                let child = match body {
                    Body::Gaia => Some(Body::Mash),
                    Body::Mash => Some(Body::Ortega),
                    _ => None,
                };
                if !self.progress[&me].spawned {
                    self.progress.get_mut(&me).unwrap().spawned = true;
                    if let Some(c) = child {
                        self.spawn_child(me, c);
                        return;
                    }
                }
                if self.progress[&me].rounds < 10 {
                    self.progress.get_mut(&me).unwrap().rounds += 1;
                    self.printed.push(format!("{:?}!", body));
                    let t = schedule(&mut self.rt);
                    self.follow(t, me);
                    return;
                }
                self.exit(me);
            }
            Body::Producer => {
                if !self.progress[&me].spawned {
                    self.progress.get_mut(&me).unwrap().spawned = true;
                    let id = self.spawn_child(me, Body::Consumer);
                    self.progress.get_mut(&me).unwrap().child = id;
                    return;
                }
                let i = self.progress[&me].rounds;
                if i < 10 {
                    self.progress.get_mut(&me).unwrap().rounds += 1;
                    let to = self.progress[&me].child;
                    let t = send(&mut self.rt, to, i);
                    self.follow(t, me);
                    return;
                }
                self.exit(me);
            }
            Body::Consumer | Body::Lonely => {
                if self.progress[&me].waiting_for_message {
                    self.progress.get_mut(&me).unwrap().waiting_for_message = false;
                    let msg = take_message(&mut self.rt).unwrap();
                    self.received.push(msg);
                    return;
                }
                if body == Body::Lonely && !self.progress[&me].spawned {
                    self.progress.get_mut(&me).unwrap().spawned = true;
                    self.spawn_child(me, Body::Short);
                    return;
                }
                if self.progress[&me].rounds < 10 {
                    self.progress.get_mut(&me).unwrap().rounds += 1;
                    match recv(&mut self.rt) {
                        Received::Message(msg) => self.received.push(msg),
                        Received::Wait(t) => {
                            assert!(self.rt.is_blocked(me));
                            self.progress.get_mut(&me).unwrap().waiting_for_message = true;
                            self.follow(t, me);
                        }
                        Received::Deadlock => {
                            self.deadlock = true;
                        }
                    }
                    return;
                }
                self.exit(me);
            }
            Body::Short => {
                self.exit(me);
            }
        }
    }

    /// Starts the runtime with `body` and runs it until the host has the CPU
    /// again or a deadlock was reported.
    fn run(&mut self, body: Body) {
        let stack = self.new_stack();
        let t = spawn_from_main(&mut self.rt, body, stack).unwrap();
        let first = match t {
            Transfer::Start { to } => to,
            other => panic!("unexpected switch {:?}", other),
        };
        self.enter(first, body);
        let mut steps = 0;
        while self.rt.ready_len() > 0 && !self.deadlock {
            self.step();
            steps += 1;
            assert!(steps < 10_000);
        }
        if !self.deadlock {
            if let Some(stack) = shutdown(&mut self.rt) {
                self.freed.push(stack);
            }
        }
    }
}

#[test]
fn three_threads_print_in_round_robin() {
    let mut m = Machine::new();
    m.run(Body::Gaia);
    let mut expected = Vec::new();
    for _ in 0..10 {
        expected.push("Gaia!".to_string());
        expected.push("Ortega!".to_string());
        expected.push("Mash!".to_string());
    }
    assert_eq!(m.printed, expected);
    assert!(!m.rt.is_started());
    assert_eq!(m.rt.ready_len(), 0);
    assert_eq!(m.freed.len(), 3);
}

#[test]
fn every_stack_is_freed_once_and_after_its_thread() {
    let mut m = Machine::new();
    m.run(Body::Gaia);
    let mut bases: Vec<u64> = m.freed.iter().map(|s| s.base).collect();
    bases.sort();
    bases.dedup();
    assert_eq!(bases.len(), 3);
    assert_eq!(m.rt.unused_stack(), None);
}

#[test]
fn consumer_receives_in_send_order() {
    let mut m = Machine::new();
    m.run(Body::Producer);
    assert_eq!(m.received, vec![0, 1, 2, 3, 4, 5, 6, 7, 8, 9]);
    assert!(!m.deadlock);
    assert!(!m.rt.is_started());
}

#[test]
fn last_thread_that_waits_is_a_deadlock() {
    let mut m = Machine::new();
    m.run(Body::Lonely);
    assert!(m.deadlock);
    assert!(m.received.is_empty());
    assert_eq!(m.rt.ready_len(), 1);
    assert!(m.rt.is_started());
}

#[test]
fn runtime_can_be_started_again_after_it_drained() {
    let mut m = Machine::new();
    m.run(Body::Gaia);
    m.printed.clear();
    m.run(Body::Producer);
    assert_eq!(m.received, vec![0, 1, 2, 3, 4, 5, 6, 7, 8, 9]);
    assert!(m.printed.is_empty());
}
