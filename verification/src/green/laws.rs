//! What holds of every runtime: identifiers are unique, every thread is in
//! exactly one place, messages arrive in the order sent, a thread that waits
//! is woken by a message, and a stack is released only when no thread is on it.

use crate::context::Context;
use crate::green::state::lemma_delivered_wf;
use crate::green::state::lemma_exited_wf;
use crate::green::state::lemma_joined_wf;
use crate::green::state::lemma_parked_wf;
use crate::green::state::lemma_started_wf;
use crate::green::state::lemma_took_wf;
use crate::green::state::lemma_yielded_wf;
use crate::green::state::queue_has;
use crate::green::state::rotated;
use crate::green::state::Place;
use crate::green::state::State;
use crate::mapped_list::after;
use crate::mapped_list::arrived;
use crate::mapped_list::lemma_fifo;
use crate::mapped_list::queued;
use crate::mapped_list::taken;
use crate::mapped_list::Step;
use vstd::prelude::*;

verus! {

/// No two threads that exist at the same time have the same identifier.
pub proof fn lemma_ids_unique<E>(s: State<E>, p: Place, q: Place)
    requires
        s.wf(),
        s.occupied(p),
        s.occupied(q),
        p != q,
    ensures
        s.thread(p).id != s.thread(q).id,
{
}

/// The identifiers in use are exactly those of the threads in the run queue,
/// the running thread at its front included, and of the blocked threads; and
/// no thread is both in the run queue and blocked.
pub proof fn lemma_run_queue_closure<E>(s: State<E>)
    requires
        s.wf(),
    ensures
        s.ids == Set::new(|id: u64| queue_has(s.ready, id)).union(s.blocked.dom()),
        Set::new(|id: u64| queue_has(s.ready, id)).disjoint(s.blocked.dom()),
{
}

/// The stack that waits to be released is out of use: it shares no byte with
/// the stack of any thread, and no thread's saved stack pointer lies in it.
pub proof fn lemma_unused_stack_unreferenced<E>(s: State<E>, p: Place)
    requires
        s.wf(),
        s.unused is Some,
        s.occupied(p),
    ensures
        s.thread(p).stack.disjoint(s.unused->0),
        !s.unused->0.holds(s.thread(p).regs.sp),
{
}

/// The stack of a thread that just ended is not released by that thread: it
/// waits, and the thread is no longer one of the runtime's.
pub proof fn lemma_exit_defers_release<E>(s: State<E>, p: Place)
    requires
        s.wf(),
        s.running(),
        s.exited().occupied(p),
    ensures
        s.exited().unused == Some(s.ready[0].stack),
        s.exited().thread(p).id != s.ready[0].id,
        s.exited().thread(p).stack.disjoint(s.ready[0].stack),
{
    lemma_exited_wf(s);
    lemma_unused_stack_unreferenced(s.exited(), p);
}

/// A thread that `recv` makes wait leaves another thread to run: a lone
/// thread with an empty mailbox is never parked.
pub proof fn lemma_wait_leaves_runner<E>(s: State<E>)
    requires
        s.wf(),
        s.ready.len() > 1,
    ensures
        s.parked().running(),
        s.parked().ready[0] == s.ready[1],
{
}

/// A message sent to a blocked thread is the only one in its mailbox and
/// makes it runnable: the thread finds it when it has the CPU again.
pub proof fn lemma_delivery_wakes<E>(s: State<E>, key: u64, msg: u64)
    requires
        s.wf(),
        s.blocked.contains_key(key),
    ensures
        !s.delivered(key, msg).blocked.contains_key(key),
        s.delivered(key, msg).ready.last() == s.blocked[key],
        queued(s.delivered(key, msg).mail, key) == seq![msg],
{
}

/// An identifier that was given up can be taken again, and one that is in
/// use cannot.
pub proof fn lemma_id_reuse(ids: Set<u64>, id: u64)
    ensures
        !ids.remove(id).contains(id),
        ids.insert(id).contains(id),
        ids.contains(id) ==> ids.remove(id).insert(id) == ids,
{
}

/// One operation on a runtime, as mathematics.
pub ghost enum Op<E> {
    /// The host starts the runtime with this thread.
    Start(Context<E>),
    /// The running thread makes this thread and yields.
    Spawn(Context<E>),
    /// The running thread yields.
    Yield,
    /// The running thread ends.
    Exit,
    /// The running thread sends a message and yields.
    Send { key: u64, msg: u64 },
    /// The running thread asks for a message: it takes one, or blocks.
    Recv,
    /// The running thread, woken by a message, takes it.
    Take,
    /// The unused stack is handed out.
    Release,
    /// The host shuts the runtime down.
    Shutdown,
}

impl<E> State<E> {
    /// The operation can be made in this state: what its function requires,
    /// and for `Recv` that it is no deadlock.
    pub open spec fn allows(self, op: Op<E>) -> bool {
        match op {
            Op::Start(c) => self.host is None && c.wf(),
            Op::Spawn(c) => self.running() && c.wf() && self.stack_fresh(c.stack)
                && !self.ids.contains(c.id),
            Op::Yield => self.running(),
            Op::Exit => self.running(),
            Op::Send { key, msg } => self.running(),
            Op::Recv => self.running() && (self.inbox().len() > 0 || self.ready.len() > 1),
            Op::Take => self.running(),
            Op::Release => true,
            Op::Shutdown => true,
        }
    }

    /// The state after the operation.
    pub open spec fn after(self, op: Op<E>) -> State<E> {
        match op {
            Op::Start(c) => self.started(c),
            Op::Spawn(c) => self.joined(c).yielded(),
            Op::Yield => self.yielded(),
            Op::Exit => self.exited(),
            Op::Send { key, msg } => self.delivered(key, msg).yielded(),
            Op::Recv => if self.inbox().len() > 0 {
                self.took()
            } else {
                self.parked()
            },
            Op::Take => self.took(),
            Op::Release => self.released(),
            Op::Shutdown => State::idle(self.entry_point),
        }
    }

    /// Every operation of `ops` can be made, one after the other, from this state.
    pub open spec fn allows_all(self, ops: Seq<Op<E>>) -> bool
        decreases ops.len(),
    {
        ops.len() == 0 || (self.allows_all(ops.drop_last()) && self.after_all(
            ops.drop_last(),
        ).allows(ops.last()))
    }

    /// The state after all operations of `ops`.
    pub open spec fn after_all(self, ops: Seq<Op<E>>) -> State<E>
        decreases ops.len(),
    {
        if ops.len() == 0 {
            self
        } else {
            self.after_all(ops.drop_last()).after(ops.last())
        }
    }
}

/// Every operation keeps a runtime well formed.
pub proof fn lemma_step_wf<E>(s: State<E>, op: Op<E>)
    requires
        s.wf(),
        s.allows(op),
    ensures
        s.after(op).wf(),
{
    match op {
        Op::Start(c) => lemma_started_wf(s, c),
        Op::Spawn(c) => {
            lemma_joined_wf(s, c);
            lemma_yielded_wf(s.joined(c));
        },
        Op::Yield => lemma_yielded_wf(s),
        Op::Exit => lemma_exited_wf(s),
        Op::Send { key, msg } => {
            lemma_delivered_wf(s, key, msg);
            lemma_yielded_wf(s.delivered(key, msg));
        },
        Op::Recv => {
            if s.inbox().len() > 0 {
                lemma_took_wf(s);
            } else {
                lemma_parked_wf(s);
            }
        },
        Op::Take => lemma_took_wf(s),
        Op::Release => {},
        Op::Shutdown => {},
    }
}

/// Whatever is done with a runtime, from the moment it is made, it stays well
/// formed: in every state that can be reached no two threads have the same
/// identifier, the identifiers in use are those of the threads in the run
/// queue and of the blocked ones, and no two stacks overlap.
pub proof fn lemma_always_wf<E>(entry_point: u64, ops: Seq<Op<E>>)
    requires
        State::<E>::idle(entry_point).allows_all(ops),
    ensures
        State::<E>::idle(entry_point).after_all(ops).wf(),
{
    lemma_steps_wf(State::<E>::idle(entry_point), ops);
}

/// What the operations `ops`, made from the state `s`, do to the mailboxes:
/// every `Send` puts a message under its receiver, every `Recv` and `Take`
/// takes the oldest message of the thread that is running then.
pub open spec fn mail_steps<E>(s: State<E>, ops: Seq<Op<E>>) -> Seq<Step<u64>>
    decreases ops.len(),
{
    if ops.len() == 0 {
        Seq::empty()
    } else {
        let earlier = mail_steps(s, ops.drop_last());
        let now = s.after_all(ops.drop_last());
        match ops.last() {
            Op::Send { key, msg } => earlier.push(Step::Push { key, val: msg }),
            Op::Recv => earlier.push(Step::Pop { key: now.ready[0].id }),
            Op::Take => earlier.push(Step::Pop { key: now.ready[0].id }),
            _ => earlier,
        }
    }
}

/// None of the operations shuts the runtime down.
pub open spec fn keeps_running<E>(ops: Seq<Op<E>>) -> bool {
    forall|i: int| 0 <= i < ops.len() ==> !(#[trigger] ops[i] is Shutdown)
}

/// The operations keep a runtime well formed, whatever state they start from.
pub proof fn lemma_steps_wf<E>(s: State<E>, ops: Seq<Op<E>>)
    requires
        s.wf(),
        s.allows_all(ops),
    ensures
        s.after_all(ops).wf(),
    decreases ops.len(),
{
    if ops.len() > 0 {
        lemma_steps_wf(s, ops.drop_last());
        lemma_step_wf(s.after_all(ops.drop_last()), ops.last());
    }
}

/// Between a start and a shutdown the mailboxes change only by what is sent
/// and received.
pub proof fn lemma_mail_follows_steps<E>(s: State<E>, ops: Seq<Op<E>>)
    requires
        s.wf(),
        s.allows_all(ops),
        keeps_running(ops),
    ensures
        s.after_all(ops).mail == after(s.mail, mail_steps(s, ops)),
    decreases ops.len(),
{
    if ops.len() > 0 {
        let front = ops.drop_last();
        lemma_mail_follows_steps(s, front);
        lemma_steps_wf(s, front);
        let now = s.after_all(front);
        let earlier = mail_steps(s, front);
        match ops.last() {
            Op::Send { key, msg } => {
                assert(earlier.push(Step::Push { key, val: msg }).drop_last() =~= earlier);
            },
            Op::Recv => {
                let me = now.ready[0].id;
                assert(earlier.push(Step::<u64>::Pop { key: me }).drop_last() =~= earlier);
            },
            Op::Take => {
                let me = now.ready[0].id;
                assert(earlier.push(Step::<u64>::Pop { key: me }).drop_last() =~= earlier);
            },
            _ => {},
        }
    }
}

/// Messages are received in the order in which they were sent: whatever else
/// the threads do, and to whomever else they send, what thread `key` has taken
/// out of its mailbox, followed by what still waits there, is what waited at
/// the beginning followed by what was sent to `key`, in the order sent.
pub proof fn lemma_mail_fifo<E>(s: State<E>, ops: Seq<Op<E>>, key: u64)
    requires
        s.wf(),
        s.allows_all(ops),
        keeps_running(ops),
    ensures
        taken(s.mail, mail_steps(s, ops), key) + queued(s.after_all(ops).mail, key) == queued(
            s.mail,
            key,
        ) + arrived(mail_steps(s, ops), key),
{
    lemma_mail_follows_steps(s, ops);
    lemma_fifo(s.mail, mail_steps(s, ops), key);
}

/// A thread that waits for a message runs again only when one was sent to
/// it: whatever operation brings a blocked thread back into the run queue
/// marks it as woken and leaves a message in its mailbox.
pub proof fn lemma_wait_ends_with_message<E>(s: State<E>, op: Op<E>, k: u64)
    requires
        s.wf(),
        s.allows(op),
        s.blocked.contains_key(k),
        queue_has(s.after(op).ready, k),
    ensures
        s.after(op).woken.contains(k),
        queued(s.after(op).mail, k).len() > 0,
{
    lemma_step_wf(s, op);
    let t = s.after(op);
    let i = choose|i: int| 0 <= i < t.ready.len() && (#[trigger] t.ready[i]).id == k;
    match op {
        Op::Spawn(c) => lemma_rotation_keeps_threads(s.joined(c).ready, i),
        Op::Yield => lemma_rotation_keeps_threads(s.ready, i),
        Op::Send { key, msg } => lemma_rotation_keeps_threads(s.delivered(key, msg).ready, i),
        _ => {},
    }
}

/// Every thread of a rotated run queue was in the queue before.
pub proof fn lemma_rotation_keeps_threads<E>(q: Seq<Context<E>>, i: int)
    requires
        0 <= i < rotated(q).len(),
    ensures
        rotated(q).len() == q.len(),
        exists|j: int| 0 <= j < q.len() && q[j] == rotated(q)[i],
{
    if q.len() <= 1 {
        assert(q[i] == rotated(q)[i]);
    }
}

/// A thread that was woken finds a message when it has the CPU.
pub proof fn lemma_woken_finds_message<E>(s: State<E>)
    requires
        s.wf(),
        s.running(),
        s.woken.contains(s.ready[0].id),
    ensures
        s.inbox().len() > 0,
{
}

} // verus!
