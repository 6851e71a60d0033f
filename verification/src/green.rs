//! The runtime of cooperative threads.
//!
//! One thread runs at a time and keeps the processor until it yields, sends,
//! waits for a message or ends. Every operation changes the runtime's state
//! and tells the caller which switch to make; the caller saves and restores
//! registers and, after each switch, frees the stack that `rm_unused_stack`
//! hands out. `state` holds the mathematical model, `laws` what is proved of
//! it.

use crate::context::Context;
use crate::context::Registers;
use crate::context::StackRegion;
use crate::green::state::handover;
use crate::green::state::lemma_delivered_wf;
use crate::green::state::lemma_exited_wf;
use crate::green::state::lemma_joined_wf;
use crate::green::state::lemma_parked_wf;
use crate::green::state::lemma_started_wf;
use crate::green::state::lemma_took_wf;
use crate::green::state::lemma_yielded_wf;
use crate::green::state::Place;
use crate::green::state::State;
use crate::mapped_list::MappedList;
use std::collections::HashMap;
use std::collections::HashSet;
use std::collections::VecDeque;
use vstd::prelude::*;
use vstd::std_specs::iter::IteratorSpec;

pub mod laws;
pub mod state;

verus! {

/// What the caller has to do with the CPU after a scheduling decision.
#[derive(Clone, Copy, Debug, PartialEq, Eq, Structural)]
pub enum Transfer {
    /// Nothing: the calling thread goes on.
    Stay,
    /// Save the registers of the calling thread, `from`, and resume thread `to`.
    Yield { from: u64, to: u64 },
    /// The calling thread is over: resume thread `to` and save nothing.
    Jump { to: u64 },
    /// No thread is left to run: resume the host and save nothing.
    Host,
    /// Save the registers of the host and resume thread `to`.
    Start { to: u64 },
}

/// A runtime of cooperative threads: the run queue, the blocked threads, their
/// mailboxes and identifiers, and the stack that waits to be released.
///
/// The runtime decides; it never touches the CPU or the memory of a stack.
/// Every operation says in its result which switch the caller has to perform.
pub struct Runtime<E> {
    entry_point: u64,
    ctx_main: Option<Registers>,
    unused_stack: Option<StackRegion>,
    contexts: VecDeque<Context<E>>,
    ids: HashSet<u64>,
    messages: MappedList<u64>,
    waiting: HashMap<u64, Context<E>>,
    woken: Ghost<Set<u64>>,
}

impl<E> View for Runtime<E> {
    type V = State<E>;

    closed spec fn view(&self) -> State<E> {
        State {
            entry_point: self.entry_point,
            host: self.ctx_main,
            unused: self.unused_stack,
            ready: self.contexts@,
            ids: self.ids@,
            mail: self.messages@,
            blocked: self.waiting@,
            woken: self.woken@,
        }
    }
}

impl<E> Runtime<E> {
    /// A runtime that has not been started. Every thread it will make starts
    /// at the address `entry_point`.
    pub fn new(entry_point: u64) -> (rt: Self)
        ensures
            rt@ == State::<E>::idle(entry_point),
            rt@.wf(),
    {
        let rt = Runtime {
            entry_point,
            ctx_main: None,
            unused_stack: None,
            contexts: VecDeque::new(),
            ids: HashSet::new(),
            messages: MappedList::new(),
            waiting: HashMap::new(),
            woken: Ghost(Set::empty()),
        };
        rt
    }

    /// Tells whether the runtime has been started and not yet shut down.
    pub fn is_started(&self) -> (r: bool)
        ensures
            r == (self@.host is Some),
    {
        self.ctx_main.is_some()
    }

    /// The number of threads in the run queue, the running one included.
    pub fn ready_len(&self) -> (r: usize)
        ensures
            r == self@.ready.len(),
    {
        self.contexts.len()
    }

    /// The identifiers of the threads in the run queue, front first.
    pub fn ready_ids(&self) -> (r: Vec<u64>)
        ensures
            r@.len() == self@.ready.len(),
            forall|i: int| 0 <= i < r@.len() ==> r@[i] == (#[trigger] self@.ready[i]).id,
    {
        let mut r: Vec<u64> = Vec::new();
        let mut i: usize = 0;
        while i < self.contexts.len()
            invariant
                i <= self.contexts@.len(),
                r@.len() == i,
                forall|k: int| 0 <= k < i ==> r@[k] == (#[trigger] self.contexts@[k]).id,
            decreases self.contexts@.len() - i,
        {
            r.push(self.contexts[i].id);
            i = i + 1;
        }
        r
    }

    /// Tells whether thread `id` waits for a message.
    pub fn is_blocked(&self, id: u64) -> (r: bool)
        ensures
            r == self@.blocked.contains_key(id),
    {
        self.waiting.contains_key(&id)
    }

    /// Tells whether `id` is the identifier of a thread that exists.
    pub fn is_live(&self, id: u64) -> (r: bool)
        ensures
            r == self@.ids.contains(id),
    {
        self.ids.contains(&id)
    }

    /// The stack that waits to be released, if there is one.
    pub fn unused_stack(&self) -> (r: Option<StackRegion>)
        ensures
            r == self@.unused,
    {
        self.unused_stack
    }

    /// The registers of the host, while the runtime is running.
    pub fn host_regs(&self) -> (r: Option<&Registers>)
        ensures
            match r {
                Some(regs) => self@.host == Some(*regs),
                None => self@.host is None,
            },
    {
        self.ctx_main.as_ref()
    }

    /// The thread with the identifier `id`, wherever it is kept.
    pub fn find(&self, id: u64) -> (r: Option<&Context<E>>)
        requires
            self@.wf(),
        ensures
            r is Some <==> self@.ids.contains(id),
            r matches Some(c) ==> c.id == id && exists|p: Place|
                self@.occupied(p) && self@.thread(p) == *c,
    {
        if let Some(c) = self.waiting.get(&id) {
            assert(self@.occupied(Place::Blocked(id)) && self@.thread(Place::Blocked(id)) == *c);
            return Some(c);
        }
        let mut i: usize = 0;
        while i < self.contexts.len()
            invariant
                self@.wf(),
                !self@.blocked.contains_key(id),
                i <= self.contexts@.len(),
                forall|k: int| 0 <= k < i ==> (#[trigger] self.contexts@[k]).id != id,
            decreases self.contexts@.len() - i,
        {
            if self.contexts[i].id == id {
                assert(self@.occupied(Place::Ready(i as int)) && self@.thread(
                    Place::Ready(i as int),
                ) == self.contexts@[i as int]);
                return Some(&self.contexts[i]);
            }
            i = i + 1;
        }
        None
    }

    /// The thread that has the CPU.
    pub fn current(&self) -> (r: &Context<E>)
        requires
            self@.running(),
        ensures
            *r == self@.ready[0],
    {
        &self.contexts[0]
    }
}

/// Hands out the stack that waits to be released, if there is one. The caller
/// lifts the protection of its guard page and frees it. To be called by a
/// thread, or the host, as soon as it has the CPU again after a switch.
pub fn rm_unused_stack<E>(rt: &mut Runtime<E>) -> (r: Option<StackRegion>)
    requires
        old(rt)@.wf(),
    ensures
        r == old(rt)@.unused,
        final(rt)@ == old(rt)@.released(),
        final(rt)@.wf(),
{
    let r = rt.unused_stack;
    rt.unused_stack = None;
    r
}

/// The running thread gives up the CPU to the thread behind it in the run
/// queue and goes to the back. Alone in the queue, it goes on.
pub fn schedule<E>(rt: &mut Runtime<E>) -> (t: Transfer)
    requires
        old(rt)@.wf(),
        old(rt)@.running(),
    ensures
        final(rt)@ == old(rt)@.yielded(),
        t == handover(old(rt)@.ready),
        final(rt)@.wf(),
{
    if rt.contexts.len() == 1 {
        return Transfer::Stay;
    }
    let ctx = rt.contexts.pop_front().unwrap();
    let from = ctx.id;
    rt.contexts.push_back(ctx);
    let to = rt.contexts[0].id;
    proof {
        lemma_yielded_wf(old(rt)@);
    }
    Transfer::Yield { from, to }
}

/// How many random candidates `get_id` draws before it takes the lowest
/// identifier that is not in use instead.
pub const MAX_DRAWS: u64 = 0xffff_ffff_ffff_ffff;

/// Calls `rand::random::<u64>()`, which draws a `u64` from the thread-local
/// generator of the `rand` crate. Nothing is claimed of the value. The call
/// panics only if the operating system gives the generator no seed.
#[verifier::external_body]
fn random_u64() -> (r: u64) {
    rand::random::<u64>()
}

/// Takes `candidate` as a new identifier if no live thread has it.
pub fn claim_id(ids: &mut HashSet<u64>, candidate: u64) -> (fresh: bool)
    ensures
        fresh == !old(ids)@.contains(candidate),
        final(ids)@ == old(ids)@.insert(candidate),
{
    if ids.contains(&candidate) {
        false
    } else {
        ids.insert(candidate);
        true
    }
}

/// Gives up the identifier `id`: a later thread may get it again.
pub fn release_id(ids: &mut HashSet<u64>, id: u64)
    ensures
        final(ids)@ == old(ids)@.remove(id),
{
    ids.remove(&id);
}

/// Draws random identifiers until one is found that no live thread has, and
/// takes it. Should `MAX_DRAWS` candidates in a row all be in use, the lowest
/// identifier that is not in use is taken: there always is one, since a set
/// cannot hold all of them.
pub fn get_id(ids: &mut HashSet<u64>) -> (id: u64)
    requires
        old(ids)@.finite(),
    ensures
        !old(ids)@.contains(id),
        final(ids)@ == old(ids)@.insert(id),
{
    let mut n: u64 = 0;
    while n < MAX_DRAWS
        invariant
            ids@ == old(ids)@,
        decreases MAX_DRAWS - n,
    {
        let rnd = random_u64();
        if claim_id(ids, rnd) {
            return rnd;
        }
        n = n + 1;
    }
    let lowest = lowest_free_id(ids);
    ids.insert(lowest);
    lowest
}

/// The lowest identifier that is not in use. There always is one: a set
/// cannot hold all identifiers.
pub fn lowest_free_id(ids: &HashSet<u64>) -> (lowest: u64)
    requires
        ids@.finite(),
    ensures
        !ids@.contains(lowest),
        forall|x: u64| x < lowest ==> ids@.contains(x),
{
    let mut lowest: u64 = 0;
    while ids.contains(&lowest)
        invariant
            ids@.finite(),
            forall|x: u64| x < lowest ==> ids@.contains(x),
        decreases u64::MAX - lowest,
    {
        proof {
            // the set has more members than `lowest`, and their number is a `usize`
            lemma_ids_below(ids@, lowest + 1);
            assert(ids@.len() == vstd::std_specs::hash::spec_hash_set_len(ids));
        }
        lowest = lowest + 1;
    }
    lowest
}

/// A set that holds every identifier below `bound` has `bound` members at least.
pub proof fn lemma_ids_below(ids: Set<u64>, bound: int)
    requires
        ids.finite(),
        0 <= bound <= u64::MAX + 1,
        forall|x: u64| x < bound ==> ids.contains(x),
    ensures
        ids.len() >= bound,
    decreases bound,
{
    if bound > 0 {
        lemma_ids_below(ids.remove((bound - 1) as u64), bound - 1);
    }
}

/// Why a runtime could not be started.
#[derive(Clone, Copy, Debug, PartialEq, Eq, Structural)]
pub enum StartError {
    /// The runtime is running already.
    AlreadyStarted,
}

/// Starts the runtime from the host: the thread that will run `func` on
/// `stack` becomes its only thread, and the host hands the CPU to it. Refused
/// while the runtime is running.
pub fn spawn_from_main<E>(rt: &mut Runtime<E>, func: E, stack: StackRegion) -> (r: Result<
    Transfer,
    StartError,
>)
    requires
        old(rt)@.wf(),
        stack.wf(),
    ensures
        r is Err <==> old(rt)@.host is Some,
        match r {
            Ok(Transfer::Start { to }) => final(rt)@ == old(rt)@.started(
                Context::fresh(func, stack, to, old(rt)@.entry_point),
            ),
            Ok(_) => false,
            Err(e) => e == StartError::AlreadyStarted && final(rt)@ == old(rt)@,
        },
        final(rt)@.wf(),
{
    if rt.ctx_main.is_some() {
        return Err(StartError::AlreadyStarted);
    }
    rt.ctx_main = Some(Registers::new(0, rt.entry_point));
    let id = get_id(&mut rt.ids);
    let ctx = Context::new(func, stack, id, rt.entry_point);
    rt.contexts.push_back(ctx);
    proof {
        lemma_started_wf(old(rt)@, Context::fresh(func, stack, id, old(rt)@.entry_point));
    }
    Ok(Transfer::Start { to: id })
}

/// Makes a thread that will run `func` on `stack`, puts it at the back of the
/// run queue, and lets the running thread give up the CPU. Returns the new
/// thread's identifier and the switch to perform.
pub fn spawn<E>(rt: &mut Runtime<E>, func: E, stack: StackRegion) -> (r: (u64, Transfer))
    requires
        old(rt)@.wf(),
        old(rt)@.running(),
        old(rt)@.stack_fresh(stack),
    ensures
        !old(rt)@.ids.contains(r.0),
        final(rt)@ == old(rt)@.joined(
            Context::fresh(func, stack, r.0, old(rt)@.entry_point),
        ).yielded(),
        r.1 == handover(
            old(rt)@.joined(Context::fresh(func, stack, r.0, old(rt)@.entry_point)).ready,
        ),
        final(rt)@.wf(),
{
    let id = get_id(&mut rt.ids);
    let ctx = Context::new(func, stack, id, rt.entry_point);
    rt.contexts.push_back(ctx);
    proof {
        lemma_joined_wf(old(rt)@, Context::fresh(func, stack, id, old(rt)@.entry_point));
    }
    let t = schedule(rt);
    (id, t)
}

/// The running thread is over. It leaves the run queue, gives up its
/// identifier, and its stack waits to be released: it cannot be freed while
/// the CPU still runs on it. Returns the stack that waited so far, which the
/// caller frees now, and the switch to perform: to the next thread in the run
/// queue, or back to the host when the queue is empty.
pub fn thread_exit<E>(rt: &mut Runtime<E>) -> (r: (Option<StackRegion>, Transfer))
    requires
        old(rt)@.wf(),
        old(rt)@.running(),
    ensures
        r.0 == old(rt)@.unused,
        r.1 == old(rt)@.exit_transfer(),
        final(rt)@ == old(rt)@.exited(),
        final(rt)@.wf(),
{
    let ctx = rt.contexts.pop_front().unwrap();
    release_id(&mut rt.ids, ctx.id);
    rt.woken = Ghost(rt.woken@.remove(ctx.id));
    let earlier = rt.unused_stack;
    rt.unused_stack = Some(ctx.stack);
    proof {
        lemma_exited_wf(old(rt)@);
    }
    if rt.contexts.len() > 0 {
        (earlier, Transfer::Jump { to: rt.contexts[0].id })
    } else {
        (earlier, Transfer::Host)
    }
}

/// Puts `msg` into the mailbox of thread `key`. If that thread waits for a
/// message it becomes runnable again, at the back of the run queue. Then the
/// running thread gives up the CPU.
pub fn send<E>(rt: &mut Runtime<E>, key: u64, msg: u64) -> (t: Transfer)
    requires
        old(rt)@.wf(),
        old(rt)@.running(),
    ensures
        final(rt)@ == old(rt)@.delivered(key, msg).yielded(),
        t == handover(old(rt)@.delivered(key, msg).ready),
        final(rt)@.wf(),
{
    rt.messages.push_back(key, msg);
    if let Some(ctx) = rt.waiting.remove(&key) {
        rt.contexts.push_back(ctx);
        rt.woken = Ghost(rt.woken@.insert(key));
    }
    proof {
        lemma_delivered_wf(old(rt)@, key, msg);
    }
    schedule(rt)
}

/// What `recv` found.
#[derive(Clone, Copy, Debug, PartialEq, Eq, Structural)]
pub enum Received {
    /// A message was waiting; here it is.
    Message(u64),
    /// No message yet: the thread is blocked until one is sent to it. The
    /// caller performs the switch and, when the thread has the CPU again,
    /// fetches the message with `take_message`.
    Wait(Transfer),
    /// No message, and no other thread that could ever send one.
    Deadlock,
}

/// The running thread asks for the oldest message in its mailbox. With none
/// there, it leaves the run queue and blocks, unless it is the only thread
/// that can run: that is a deadlock, reported and not entered.
pub fn recv<E>(rt: &mut Runtime<E>) -> (r: Received)
    requires
        old(rt)@.wf(),
        old(rt)@.running(),
    ensures
        old(rt)@.inbox().len() > 0 ==> r == Received::Message(old(rt)@.inbox()[0]) && final(rt)@
            == old(rt)@.took(),
        old(rt)@.inbox().len() == 0 && old(rt)@.ready.len() == 1 ==> r == Received::Deadlock
            && final(rt)@ == old(rt)@,
        old(rt)@.inbox().len() == 0 && old(rt)@.ready.len() > 1 ==> r == Received::Wait(
            Transfer::Yield { from: old(rt)@.ready[0].id, to: old(rt)@.ready[1].id },
        ) && final(rt)@ == old(rt)@.parked(),
        final(rt)@.wf(),
{
    let key = rt.contexts[0].id;
    if let Some(msg) = rt.messages.pop_front(key) {
        rt.woken = Ghost(rt.woken@.remove(key));
        proof {
            lemma_took_wf(old(rt)@);
        }
        return Received::Message(msg);
    }
    assert(rt.messages@ =~= old(rt).messages@);
    if rt.contexts.len() == 1 {
        return Received::Deadlock;
    }
    let ctx = rt.contexts.pop_front().unwrap();
    rt.waiting.insert(key, ctx);
    proof {
        lemma_parked_wf(old(rt)@);
    }
    Received::Wait(Transfer::Yield { from: key, to: rt.contexts[0].id })
}

/// The running thread, back on the CPU after `recv` made it wait, takes the
/// oldest message out of its mailbox. A thread that a message woke finds one.
pub fn take_message<E>(rt: &mut Runtime<E>) -> (r: Option<u64>)
    requires
        old(rt)@.wf(),
        old(rt)@.running(),
    ensures
        r == if old(rt)@.inbox().len() > 0 {
            Some(old(rt)@.inbox()[0])
        } else {
            None
        },
        old(rt)@.woken.contains(old(rt)@.ready[0].id) ==> r is Some,
        final(rt)@ == old(rt)@.took(),
        final(rt)@.wf(),
{
    let key = rt.contexts[0].id;
    let r = rt.messages.pop_front(key);
    rt.woken = Ghost(rt.woken@.remove(key));
    proof {
        lemma_took_wf(old(rt)@);
    }
    r
}

/// The host has the CPU again: the runtime is shut down and forgets every
/// thread, message and identifier. Returns the stack that waited to be
/// released.
pub fn shutdown<E>(rt: &mut Runtime<E>) -> (r: Option<StackRegion>)
    requires
        old(rt)@.wf(),
    ensures
        r == old(rt)@.unused,
        final(rt)@ == State::<E>::idle(old(rt)@.entry_point),
        final(rt)@.wf(),
{
    let r = rt.unused_stack;
    rt.unused_stack = None;
    rt.ctx_main = None;
    rt.contexts.clear();
    rt.messages.clear();
    rt.waiting.clear();
    rt.ids.clear();
    rt.woken = Ghost(Set::empty());
    r
}

/// Tells whether `stack` can be given to a new thread: it is usable, no
/// thread of the runtime owns a byte of it, and it does not wait to be released.
pub fn is_stack_fresh<E>(rt: &Runtime<E>, stack: &StackRegion) -> (r: bool)
    requires
        rt@.wf(),
        stack.wf(),
    ensures
        r == rt@.stack_fresh(*stack),
{
    if let Some(unused) = rt.unused_stack {
        if !unused.is_disjoint(stack) {
            return false;
        }
    }
    let mut i: usize = 0;
    while i < rt.contexts.len()
        invariant
            rt@.wf(),
            stack.wf(),
            i <= rt.contexts@.len(),
            forall|j: int| 0 <= j < i ==> (#[trigger] rt.contexts@[j]).stack.disjoint(*stack),
        decreases rt.contexts@.len() - i,
    {
        assert(rt@.ready[i as int].wf());
        if !rt.contexts[i].stack.is_disjoint(stack) {
            return false;
        }
        i = i + 1;
    }
    for kv in it: rt.waiting.iter()
        invariant
            rt@.wf(),
            stack.wf(),
            it.seq() == vstd::std_specs::hash::spec_hash_map_iter(&rt.waiting).remaining(),
            forall|j: int|
                0 <= j < it.index() ==> (#[trigger] it.seq()[j]).1.stack.disjoint(*stack),
    {
        assert(rt@.blocked.contains_key(*it.seq()[it.index()].0));
        if !kv.1.stack.is_disjoint(stack) {
            return false;
        }
    }
    true
}

} // verus!
