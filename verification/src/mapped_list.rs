//! Queues of values under numeric keys: the mailboxes of the runtime.
//! Values leave a queue in the order in which they came.

use std::collections::HashMap;
use std::collections::VecDeque;
use vstd::prelude::*;

verus! {

/// The values queued under `key` in `m`, oldest first; none if `m` has no such key.
pub open spec fn queued<T>(m: Map<u64, Seq<T>>, key: u64) -> Seq<T> {
    if m.contains_key(key) {
        m[key]
    } else {
        Seq::empty()
    }
}

/// `m` after `val` was put behind the values queued under `key`.
pub open spec fn pushed<T>(m: Map<u64, Seq<T>>, key: u64, val: T) -> Map<u64, Seq<T>> {
    m.insert(key, queued(m, key).push(val))
}

/// `m` after the oldest value under `key` was taken; a key whose last value
/// is taken leaves the map.
pub open spec fn popped<T>(m: Map<u64, Seq<T>>, key: u64) -> Map<u64, Seq<T>> {
    if queued(m, key).len() <= 1 {
        m.remove(key)
    } else {
        m.insert(key, queued(m, key).skip(1))
    }
}

/// No key of `m` has an empty queue.
pub open spec fn compact<T>(m: Map<u64, Seq<T>>) -> bool {
    forall|k: u64| #[trigger] m.contains_key(k) ==> m[k].len() > 0
}

/// One operation on a store: a value put under a key, or the oldest value
/// under a key taken.
pub enum Step<T> {
    Push { key: u64, val: T },
    Pop { key: u64 },
}

/// The store that `m` becomes when `steps` are applied in order.
pub open spec fn after<T>(m: Map<u64, Seq<T>>, steps: Seq<Step<T>>) -> Map<u64, Seq<T>>
    decreases steps.len(),
{
    if steps.len() == 0 {
        m
    } else {
        let before = after(m, steps.drop_last());
        match steps.last() {
            Step::Push { key, val } => pushed(before, key, val),
            Step::Pop { key } => popped(before, key),
        }
    }
}

/// The values that `steps` put under `key`, in the order of the steps.
pub open spec fn arrived<T>(steps: Seq<Step<T>>, key: u64) -> Seq<T>
    decreases steps.len(),
{
    if steps.len() == 0 {
        Seq::empty()
    } else {
        let earlier = arrived(steps.drop_last(), key);
        match steps.last() {
            Step::Push { key: k, val } => if k == key {
                earlier.push(val)
            } else {
                earlier
            },
            Step::Pop { key: k } => earlier,
        }
    }
}

/// The values that the `Pop` steps under `key` took out, in the order of the
/// steps, when `steps` are applied to `m`. A `Pop` that finds nothing takes nothing.
pub open spec fn taken<T>(m: Map<u64, Seq<T>>, steps: Seq<Step<T>>, key: u64) -> Seq<T>
    decreases steps.len(),
{
    if steps.len() == 0 {
        Seq::empty()
    } else {
        let earlier = taken(m, steps.drop_last(), key);
        let waiting = queued(after(m, steps.drop_last()), key);
        match steps.last() {
            Step::Push { key: k, val } => earlier,
            Step::Pop { key: k } => if k == key && waiting.len() > 0 {
                earlier.push(waiting[0])
            } else {
                earlier
            },
        }
    }
}

/// Queues are first in, first out, whatever happens under other keys: what
/// was taken under `key`, followed by what is still queued there, is what was
/// queued there at the start followed by what arrived, in arrival order.
pub proof fn lemma_fifo<T>(m: Map<u64, Seq<T>>, steps: Seq<Step<T>>, key: u64)
    ensures
        taken(m, steps, key) + queued(after(m, steps), key) == queued(m, key) + arrived(
            steps,
            key,
        ),
    decreases steps.len(),
{
    if steps.len() > 0 {
        let prefix = steps.drop_last();
        lemma_fifo(m, prefix, key);
        let waiting = queued(after(m, prefix), key);
        match steps.last() {
            Step::Push { key: k, val } => {
                if k == key {
                    assert(taken(m, prefix, key) + waiting.push(val) =~= (taken(m, prefix, key)
                        + waiting).push(val));
                }
            },
            Step::Pop { key: k } => {},
        }
    }
}

/// One queue of values per key, each in arrival order.
pub struct MappedList<T> {
    map: HashMap<u64, VecDeque<T>>,
}

impl<T> View for MappedList<T> {
    type V = Map<u64, Seq<T>>;

    closed spec fn view(&self) -> Map<u64, Seq<T>> {
        Map::new(|k: u64| self.map@.contains_key(k), |k: u64| self.map@[k]@)
    }
}

impl<T> MappedList<T> {
    /// Only keys with at least one queued value are kept.
    pub open spec fn wf(self) -> bool {
        compact(self@)
    }

    /// An empty store.
    pub fn new() -> (r: Self)
        ensures
            r@ == Map::<u64, Seq<T>>::empty(),
            r.wf(),
    {
        MappedList { map: HashMap::new() }
    }

    /// Puts `val` behind everything already queued under `key`.
    pub fn push_back(&mut self, key: u64, val: T)
        requires
            old(self).wf(),
        ensures
            final(self)@ == pushed(old(self)@, key, val),
            final(self).wf(),
    {
        let mut list = match self.map.remove(&key) {
            Some(list) => list,
            None => VecDeque::new(),
        };
        list.push_back(val);
        self.map.insert(key, list);
    }

    /// Takes the oldest value queued under `key`, if there is one.
    pub fn pop_front(&mut self, key: u64) -> (r: Option<T>)
        requires
            old(self).wf(),
        ensures
            r == if queued(old(self)@, key).len() > 0 {
                Some(queued(old(self)@, key)[0])
            } else {
                None
            },
            final(self)@ == popped(old(self)@, key),
            final(self).wf(),
    {
        match self.map.remove(&key) {
            Some(mut list) => {
                let val = list.pop_front();
                if list.len() != 0 {
                    self.map.insert(key, list);
                }
                assert(self@ =~= popped(old(self)@, key));
                val
            },
            None => {
                None
            },
        }
    }

    /// Drops every queued value.
    pub fn clear(&mut self)
        ensures
            final(self)@ == Map::<u64, Seq<T>>::empty(),
            final(self).wf(),
    {
        self.map.clear();
    }
}

} // verus!
