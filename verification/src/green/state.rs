//! The state of a runtime as mathematics, the changes that its operations
//! make to it, and the proof that each of them keeps it well formed.

use crate::context::Context;
use crate::context::Registers;
use crate::context::StackRegion;
use crate::green::Transfer;
use crate::mapped_list::compact;
use crate::mapped_list::popped;
use crate::mapped_list::pushed;
use crate::mapped_list::queued;
use vstd::prelude::*;

verus! {

/// The run queue after its front thread gave up the CPU: the front moves to
/// the back, unless it is alone.
pub open spec fn rotated<E>(q: Seq<Context<E>>) -> Seq<Context<E>> {
    if q.len() <= 1 {
        q
    } else {
        q.skip(1).push(q[0])
    }
}

/// The switch that goes with `rotated`: from the front thread to the one behind it.
pub open spec fn handover<E>(q: Seq<Context<E>>) -> Transfer {
    if q.len() <= 1 {
        Transfer::Stay
    } else {
        Transfer::Yield { from: q[0].id, to: q[1].id }
    }
}

/// Thread `id` is in the run queue `q`.
pub open spec fn queue_has<E>(q: Seq<Context<E>>, id: u64) -> bool {
    exists|i: int| 0 <= i < q.len() && (#[trigger] q[i]).id == id
}

/// The state of a runtime, as mathematics.
pub ghost struct State<E> {
    /// Address of the function at which every new thread starts.
    pub entry_point: u64,
    /// Registers of the host that started the runtime; `None` while it is idle.
    pub host: Option<Registers>,
    /// Stack of a thread that is over, waiting to be released.
    pub unused: Option<StackRegion>,
    /// The run queue. Its front is the thread that has the CPU.
    pub ready: Seq<Context<E>>,
    /// Identifiers of the threads that exist.
    pub ids: Set<u64>,
    /// Messages sent and not yet received, by receiver.
    pub mail: Map<u64, Seq<u64>>,
    /// Threads that wait for a message, by identifier.
    pub blocked: Map<u64, Context<E>>,
    /// Threads that a message made runnable again and that have not taken a
    /// message since.
    pub woken: Set<u64>,
}

impl<E> State<E> {
    /// The state of a runtime that has not been started.
    pub open spec fn idle(entry_point: u64) -> State<E> {
        State {
            entry_point,
            host: None,
            unused: None,
            ready: Seq::empty(),
            ids: Set::empty(),
            mail: Map::empty(),
            blocked: Map::empty(),
            woken: Set::empty(),
        }
    }

    /// A logical thread has the CPU: the front of the run queue.
    pub open spec fn running(self) -> bool {
        self.ready.len() > 0
    }

    /// Every thread has an identifier of its own, and the identifiers in use
    /// are exactly those of the threads in the run queue and of the blocked
    /// ones: finitely many.
    pub open spec fn ids_wf(self) -> bool {
        &&& forall|i: int, j: int|
            0 <= i < j < self.ready.len() ==> (#[trigger] self.ready[i]).id != (
            #[trigger] self.ready[j]).id
        &&& forall|k: u64| #[trigger] self.blocked.contains_key(k) ==> self.blocked[k].id == k
        &&& forall|i: int|
            0 <= i < self.ready.len() ==> !self.blocked.contains_key((#[trigger] self.ready[i]).id)
        &&& forall|id: u64|
            #[trigger] self.ids.contains(id) <==> (queue_has(self.ready, id)
                || self.blocked.contains_key(id))
        &&& self.ids.finite()
    }

    /// No byte belongs to two stacks: not to those of two threads, and not to
    /// that of a thread and the one that waits to be released.
    pub open spec fn stacks_wf(self) -> bool {
        &&& forall|i: int| 0 <= i < self.ready.len() ==> (#[trigger] self.ready[i]).wf()
        &&& forall|k: u64| #[trigger] self.blocked.contains_key(k) ==> self.blocked[k].wf()
        &&& forall|i: int, j: int|
            0 <= i < j < self.ready.len() ==> (#[trigger] self.ready[i]).stack.disjoint(
                (#[trigger] self.ready[j]).stack,
            )
        &&& forall|i: int, k: u64|
            0 <= i < self.ready.len() && #[trigger] self.blocked.contains_key(k) ==> (
            #[trigger] self.ready[i]).stack.disjoint(self.blocked[k].stack)
        &&& forall|k: u64, l: u64|
            #[trigger] self.blocked.contains_key(k) && #[trigger] self.blocked.contains_key(l) && k
                != l ==> self.blocked[k].stack.disjoint(self.blocked[l].stack)
        &&& self.unused is Some ==> self.unused->0.wf() && self.stack_free(self.unused->0)
    }

    /// No thread owns a byte of `stack`.
    pub open spec fn stack_free(self, stack: StackRegion) -> bool {
        &&& forall|i: int|
            0 <= i < self.ready.len() ==> (#[trigger] self.ready[i]).stack.disjoint(stack)
        &&& forall|k: u64| #[trigger]
            self.blocked.contains_key(k) ==> self.blocked[k].stack.disjoint(stack)
    }

    /// `stack` can be given to a new thread: it is usable, no thread owns a
    /// byte of it, and it does not wait to be released.
    pub open spec fn stack_fresh(self, stack: StackRegion) -> bool {
        &&& stack.wf()
        &&& self.stack_free(stack)
        &&& self.unused is Some ==> self.unused->0.disjoint(stack)
    }

    /// What holds of a runtime between any two operations.
    pub open spec fn wf(self) -> bool {
        &&& self.ids_wf()
        &&& self.stacks_wf()
        &&& compact(self.mail)
        &&& forall|k: u64| #[trigger] self.blocked.contains_key(k) ==> !self.mail.contains_key(k)
        &&& forall|id: u64| #[trigger]
            self.woken.contains(id) ==> queue_has(self.ready, id) && queued(self.mail, id).len() > 0
        &&& self.running() ==> self.host is Some
        &&& self.host is None ==> self == State::<E>::idle(self.entry_point)
    }

    /// The front thread gives up the CPU.
    pub open spec fn yielded(self) -> State<E> {
        State { ready: rotated(self.ready), ..self }
    }

    /// Thread `c` joins the back of the run queue.
    pub open spec fn joined(self, c: Context<E>) -> State<E> {
        State { ready: self.ready.push(c), ids: self.ids.insert(c.id), ..self }
    }

    /// The host starts the runtime with `c` as its only thread.
    pub open spec fn started(self, c: Context<E>) -> State<E> {
        State {
            host: Some(Registers::initial(0, self.entry_point)),
            ready: seq![c],
            ids: set![c.id],
            ..self
        }
    }

    /// The front thread is over: it leaves the run queue, its identifier is
    /// given up and its stack waits to be released.
    pub open spec fn exited(self) -> State<E> {
        State {
            ready: self.ready.skip(1),
            ids: self.ids.remove(self.ready[0].id),
            unused: Some(self.ready[0].stack),
            woken: self.woken.remove(self.ready[0].id),
            ..self
        }
    }

    /// The switch that follows `exited`: to the thread behind the front, or to
    /// the host when there is none.
    pub open spec fn exit_transfer(self) -> Transfer {
        if self.ready.len() > 1 {
            Transfer::Jump { to: self.ready[1].id }
        } else {
            Transfer::Host
        }
    }

    /// The stack that waited to be released has been handed out.
    pub open spec fn released(self) -> State<E> {
        State { unused: None, ..self }
    }

    /// `msg` is put into the mailbox of `key`; if thread `key` was blocked, it
    /// is woken: it joins the back of the run queue.
    pub open spec fn delivered(self, key: u64, msg: u64) -> State<E> {
        State {
            mail: pushed(self.mail, key, msg),
            ready: if self.blocked.contains_key(key) {
                self.ready.push(self.blocked[key])
            } else {
                self.ready
            },
            blocked: self.blocked.remove(key),
            woken: if self.blocked.contains_key(key) {
                self.woken.insert(key)
            } else {
                self.woken
            },
            ..self
        }
    }

    /// The messages that wait for the front thread.
    pub open spec fn inbox(self) -> Seq<u64> {
        queued(self.mail, self.ready[0].id)
    }

    /// The front thread took the oldest message out of its mailbox.
    pub open spec fn took(self) -> State<E> {
        State {
            mail: popped(self.mail, self.ready[0].id),
            woken: self.woken.remove(self.ready[0].id),
            ..self
        }
    }

    /// The front thread leaves the run queue to wait for a message.
    pub open spec fn parked(self) -> State<E> {
        State {
            ready: self.ready.skip(1),
            blocked: self.blocked.insert(self.ready[0].id, self.ready[0]),
            ..self
        }
    }
}

/// Giving up the CPU keeps a runtime well formed.
pub proof fn lemma_yielded_wf<E>(s: State<E>)
    requires
        s.wf(),
    ensures
        s.yielded().wf(),
{
    let t = s.yielded();
    if s.ready.len() > 1 {
        let n = s.ready.len() as int;
        assert forall|id: u64| queue_has(t.ready, id) <==> queue_has(s.ready, id) by {
            if queue_has(s.ready, id) {
                let i = choose|i: int| 0 <= i < s.ready.len() && (#[trigger] s.ready[i]).id == id;
                let j = if i == 0 { n - 1 } else { i - 1 };
                assert(t.ready[j].id == id);
            }
        }
    }
}

/// Starting an idle runtime with a thread on a usable stack gives a well
/// formed runtime.
pub proof fn lemma_started_wf<E>(s: State<E>, c: Context<E>)
    requires
        s.wf(),
        s.host is None,
        c.wf(),
    ensures
        s.started(c).wf(),
{
    let t = s.started(c);
    assert forall|id: u64| #[trigger] t.ids.contains(id) <==> (queue_has(t.ready, id)
        || t.blocked.contains_key(id)) by {
        if id == c.id {
            assert(t.ready[0].id == id);
        }
    }
}

/// A new thread with an unused identifier and a fresh stack keeps a runtime
/// well formed.
pub proof fn lemma_joined_wf<E>(s: State<E>, c: Context<E>)
    requires
        s.wf(),
        s.host is Some,
        c.wf(),
        s.stack_fresh(c.stack),
        !s.ids.contains(c.id),
    ensures
        s.joined(c).wf(),
{
    let t = s.joined(c);
    let n = s.ready.len() as int;
    assert forall|id: u64| queue_has(t.ready, id) <==> (queue_has(s.ready, id) || id
        == c.id) by {
        if queue_has(s.ready, id) {
            let i = choose|i: int| 0 <= i < s.ready.len() && (#[trigger] s.ready[i]).id == id;
            assert(t.ready[i].id == id);
        }
        if id == c.id {
            assert(t.ready[n].id == id);
        }
    }
}

/// The end of the running thread keeps a runtime well formed.
pub proof fn lemma_exited_wf<E>(s: State<E>)
    requires
        s.wf(),
        s.running(),
    ensures
        s.exited().wf(),
{
    let t = s.exited();
    assert forall|id: u64| queue_has(t.ready, id) <==> (queue_has(s.ready, id) && id
        != s.ready[0].id) by {
        if queue_has(s.ready, id) && id != s.ready[0].id {
            let i = choose|i: int| 0 <= i < s.ready.len() && (#[trigger] s.ready[i]).id == id;
            assert(t.ready[i - 1].id == id);
        }
    }
}

/// A delivery keeps a runtime well formed.
pub proof fn lemma_delivered_wf<E>(s: State<E>, key: u64, msg: u64)
    requires
        s.wf(),
        s.host is Some,
    ensures
        s.delivered(key, msg).wf(),
{
    let t = s.delivered(key, msg);
    let n = s.ready.len() as int;
    if s.blocked.contains_key(key) {
        let c = s.blocked[key];
        assert(t.ready[n] == c);
        assert forall|id: u64| queue_has(t.ready, id) <==> (queue_has(s.ready, id) || id
            == key) by {
            if queue_has(s.ready, id) {
                let i = choose|i: int| 0 <= i < s.ready.len() && (#[trigger] s.ready[i]).id == id;
                assert(t.ready[i].id == id);
            }
        }
    }
}

/// Taking a message keeps a runtime well formed.
pub proof fn lemma_took_wf<E>(s: State<E>)
    requires
        s.wf(),
        s.running(),
    ensures
        s.took().wf(),
{
}

/// Blocking the running thread, whose mailbox is empty, keeps a runtime well
/// formed.
pub proof fn lemma_parked_wf<E>(s: State<E>)
    requires
        s.wf(),
        s.running(),
        s.inbox().len() == 0,
    ensures
        s.parked().wf(),
{
    let t = s.parked();
    let me = s.ready[0];
    assert forall|id: u64| queue_has(t.ready, id) <==> (queue_has(s.ready, id) && id
        != me.id) by {
        if queue_has(s.ready, id) && id != me.id {
            let i = choose|i: int| 0 <= i < s.ready.len() && (#[trigger] s.ready[i]).id == id;
            assert(t.ready[i - 1].id == id);
        }
    }
}

/// Where a thread of a runtime is kept: at a position of the run queue, or
/// among the blocked threads under its identifier.
pub ghost enum Place {
    Ready(int),
    Blocked(u64),
}

impl<E> State<E> {
    /// There is a thread at `p`.
    pub open spec fn occupied(self, p: Place) -> bool {
        match p {
            Place::Ready(i) => 0 <= i < self.ready.len(),
            Place::Blocked(k) => self.blocked.contains_key(k),
        }
    }

    /// The thread at `p`.
    pub open spec fn thread(self, p: Place) -> Context<E> {
        match p {
            Place::Ready(i) => self.ready[i],
            Place::Blocked(k) => self.blocked[k],
        }
    }
}

} // verus!
