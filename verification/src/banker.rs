//! The banker's algorithm: resources are granted only as long as the threads
//! can still all run to their ends, so that no deadlock becomes unavoidable.

use vstd::prelude::*;

verus! {

/// How much of each resource is free, how much each thread holds and how much
/// each thread may hold at most, as mathematics. Rows are threads, columns
/// are resources.
pub ghost struct Ledger {
    pub available: Seq<int>,
    pub allocation: Seq<Seq<int>>,
    pub max: Seq<Seq<int>>,
}

/// What thread `i` gives back of resource `j` when the threads `done` end one
/// after the other: the sum of what they hold.
pub open spec fn given_back(allocation: Seq<Seq<int>>, done: Seq<int>, j: int) -> int
    decreases done.len(),
{
    if done.len() == 0 {
        0
    } else {
        given_back(allocation, done.drop_last(), j) + allocation[done.last()][j]
    }
}

impl Ledger {
    /// Number of threads.
    pub open spec fn threads(self) -> int {
        self.allocation.len() as int
    }

    /// Number of kinds of resource.
    pub open spec fn kinds(self) -> int {
        self.available.len() as int
    }

    /// The tables have matching sizes, no thread holds more than its maximum,
    /// and of each resource the free units and the held ones together fit in a `usize`.
    pub open spec fn wf(self) -> bool {
        &&& self.max.len() == self.allocation.len()
        &&& forall|j: int| 0 <= j < self.kinds() ==> 0 <= #[trigger] self.available[j]
        &&& forall|i: int|
            0 <= i < self.threads() ==> (#[trigger] self.allocation[i]).len() == self.kinds()
        &&& forall|i: int|
            0 <= i < self.threads() ==> (#[trigger] self.max[i]).len() == self.kinds()
        &&& forall|i: int, j: int|
            0 <= i < self.threads() && 0 <= j < self.kinds() ==> 0
                <= #[trigger] self.allocation[i][j] <= self.max[i][j]
        &&& forall|j: int|
            0 <= j < self.kinds() ==> #[trigger] self.total(j) <= usize::MAX
    }

    /// All units of resource `j`: the free ones and those that threads hold.
    pub open spec fn total(self, j: int) -> int {
        self.available[j] + given_back(self.allocation, all_threads(self.threads()), j)
    }

    /// What is free of each resource once the threads `done` have ended and
    /// given back what they hold.
    pub open spec fn work_after(self, done: Seq<int>) -> Seq<int> {
        Seq::new(
            self.kinds() as nat,
            |j: int| self.available[j] + given_back(self.allocation, done, j),
        )
    }

    /// With `work` free, thread `i` can get all it may still ask for.
    pub open spec fn covers(self, work: Seq<int>, i: int) -> bool {
        forall|j: int|
            0 <= j < self.kinds() ==> self.max[i][j] - self.allocation[i][j] <= #[trigger] work[j]
    }

    /// `order` names distinct threads, each of which can run to its end once
    /// those before it have ended.
    pub open spec fn runs(self, order: Seq<int>) -> bool {
        &&& order.no_duplicates()
        &&& forall|p: int| 0 <= p < order.len() ==> 0 <= #[trigger] order[p] < self.threads()
        &&& forall|p: int|
            0 <= p < order.len() ==> self.covers(
                self.work_after(order.take(p)),
                #[trigger] order[p],
            )
    }

    /// The state is safe: the threads can be put in an order in which every
    /// one of them can run to its end, so no deadlock is forced.
    pub open spec fn safe(self) -> bool {
        exists|order: Seq<int>| order.len() == self.threads() && #[trigger] self.runs(order)
    }

    /// Thread `id` holds one unit more of `resource`, taken from the free ones.
    pub open spec fn granted(self, id: int, resource: int) -> Ledger {
        Ledger {
            available: self.available.update(resource, self.available[resource] - 1),
            allocation: self.allocation.update(
                id,
                self.allocation[id].update(resource, self.allocation[id][resource] + 1),
            ),
            max: self.max,
        }
    }

    /// Thread `id` holds one unit less of `resource`, which is free again.
    pub open spec fn returned(self, id: int, resource: int) -> Ledger {
        Ledger {
            available: self.available.update(resource, self.available[resource] + 1),
            allocation: self.allocation.update(
                id,
                self.allocation[id].update(resource, self.allocation[id][resource] - 1),
            ),
            max: self.max,
        }
    }
}

/// The resources of `NRES` kinds that `NTH` threads share.
pub struct Resource<const NRES: usize, const NTH: usize> {
    available: [usize; NRES],
    allocation: [[usize; NRES]; NTH],
    max: [[usize; NRES]; NTH],
}

impl<const NRES: usize, const NTH: usize> View for Resource<NRES, NTH> {
    type V = Ledger;

    closed spec fn view(&self) -> Ledger {
        Ledger {
            available: Seq::new(NRES as nat, |j: int| self.available[j] as int),
            allocation: Seq::new(
                NTH as nat,
                |i: int| Seq::new(NRES as nat, |j: int| self.allocation[i][j] as int),
            ),
            max: Seq::new(
                NTH as nat,
                |i: int| Seq::new(NRES as nat, |j: int| self.max[i][j] as int),
            ),
        }
    }
}

/// The threads `0, 1, ..` up to `n`, in that order.
pub open spec fn all_threads(n: int) -> Seq<int> {
    Seq::new(n as nat, |i: int| i)
}

/// Putting a thread behind `done` adds what it holds.
pub proof fn lemma_given_back_push(allocation: Seq<Seq<int>>, done: Seq<int>, i: int, j: int)
    ensures
        given_back(allocation, done.push(i), j) == given_back(allocation, done, j)
            + allocation[i][j],
{
    assert(done.push(i).drop_last() =~= done);
}

/// Threads that hold nothing give back nothing.
pub proof fn lemma_given_back_zero(allocation: Seq<Seq<int>>, done: Seq<int>, j: int)
    requires
        forall|p: int| 0 <= p < done.len() ==> allocation[#[trigger] done[p]][j] == 0,
    ensures
        given_back(allocation, done, j) == 0,
    decreases done.len(),
{
    if done.len() > 0 {
        lemma_given_back_zero(allocation, done.drop_last(), j);
    }
}

/// What is given back is never negative.
pub proof fn lemma_given_back_nonneg(allocation: Seq<Seq<int>>, done: Seq<int>, j: int)
    requires
        forall|p: int| 0 <= p < done.len() ==> allocation[#[trigger] done[p]][j] >= 0,
    ensures
        given_back(allocation, done, j) >= 0,
    decreases done.len(),
{
    if done.len() > 0 {
        lemma_given_back_nonneg(allocation, done.drop_last(), j);
    }
}

/// Leaving one thread out takes away what it holds.
pub proof fn lemma_given_back_remove(allocation: Seq<Seq<int>>, done: Seq<int>, at: int, j: int)
    requires
        0 <= at < done.len(),
    ensures
        given_back(allocation, done, j) == given_back(allocation, done.remove(at), j)
            + allocation[done[at]][j],
    decreases done.len(),
{
    if at < done.len() - 1 {
        lemma_given_back_remove(allocation, done.drop_last(), at, j);
        assert(done.remove(at).drop_last() =~= done.drop_last().remove(at));
    }
}

/// Fewer threads give back less: if the distinct threads `part` all occur in
/// `whole`, they give back at most what `whole` gives back.
pub proof fn lemma_given_back_part(
    allocation: Seq<Seq<int>>,
    part: Seq<int>,
    whole: Seq<int>,
    j: int,
)
    requires
        part.no_duplicates(),
        forall|p: int| 0 <= p < part.len() ==> whole.contains(#[trigger] part[p]),
        forall|p: int| 0 <= p < whole.len() ==> allocation[#[trigger] whole[p]][j] >= 0,
    ensures
        given_back(allocation, part, j) <= given_back(allocation, whole, j),
    decreases part.len(),
{
    if part.len() == 0 {
        lemma_given_back_nonneg(allocation, whole, j);
    } else {
        let x = part.last();
        let at = choose|at: int| 0 <= at < whole.len() && whole[at] == x;
        let rest = whole.remove(at);
        lemma_given_back_remove(allocation, whole, at, j);
        let front = part.drop_last();
        assert forall|p: int| 0 <= p < front.len() implies rest.contains(#[trigger] front[p]) by {
            let q = choose|q: int| 0 <= q < whole.len() && whole[q] == part[p];
            if q < at {
                assert(rest[q] == whole[q]);
            } else {
                assert(rest[q - 1] == whole[q]);
            }
        }
        lemma_given_back_part(allocation, front, rest, j);
    }
}

/// A change of what one thread holds of one resource changes what a list of
/// distinct threads gives back of that resource by as much, if the thread is
/// in the list, and nothing else.
pub proof fn lemma_given_back_update(
    allocation: Seq<Seq<int>>,
    done: Seq<int>,
    id: int,
    resource: int,
    amount: int,
    j: int,
)
    requires
        done.no_duplicates(),
        0 <= id < allocation.len(),
        0 <= resource < allocation[id].len(),
        0 <= j < allocation[id].len(),
        forall|p: int| 0 <= p < done.len() ==> 0 <= #[trigger] done[p] < allocation.len(),
    ensures
        given_back(allocation.update(id, allocation[id].update(resource, amount)), done, j)
            == given_back(allocation, done, j) + if j == resource && done.contains(id) {
            amount - allocation[id][resource]
        } else {
            0
        },
    decreases done.len(),
{
    if done.len() > 0 {
        let front = done.drop_last();
        lemma_given_back_update(allocation, front, id, resource, amount, j);
        if done.last() != id && done.contains(id) {
            let q = choose|q: int| 0 <= q < done.len() && done[q] == id;
            assert(front[q] == id);
        }
    }
}

/// Distinct threads are at most as many as there are threads.
pub proof fn lemma_distinct_threads(order: Seq<int>, n: int)
    requires
        0 <= n,
        order.no_duplicates(),
        forall|p: int| 0 <= p < order.len() ==> 0 <= #[trigger] order[p] < n,
    ensures
        order.len() <= n,
        order.len() == n ==> forall|i: int| 0 <= i < n ==> order.contains(i),
{
    vstd::set_lib::lemma_int_range(0, n);
    let range = vstd::set_lib::set_int_range(0, n);
    order.unique_seq_to_set();
    vstd::set_lib::lemma_len_subset(order.to_set(), range);
    if order.len() == n {
        vstd::set_lib::lemma_subset_equality(order.to_set(), range);
        assert forall|i: int| 0 <= i < n implies order.contains(i) by {
            assert(range.contains(i));
        }
    }
}

impl<const NRES: usize, const NTH: usize> Resource<NRES, NTH> {
    /// `available` units are free and no thread holds any; thread `i` will
    /// never hold more than `max[i]`.
    pub fn new(available: [usize; NRES], max: [[usize; NRES]; NTH]) -> (r: Self)
        ensures
            r@.available == Seq::new(NRES as nat, |j: int| available[j] as int),
            r@.max == Seq::new(
                NTH as nat,
                |i: int| Seq::new(NRES as nat, |j: int| max[i][j] as int),
            ),
            r@.allocation == Seq::new(NTH as nat, |i: int| Seq::new(NRES as nat, |j: int| 0int)),
            r@.wf(),
    {
        let r = Resource { available, allocation: [[0; NRES]; NTH], max };
        proof {
            assert forall|i: int| 0 <= i < NTH implies #[trigger] r@.allocation[i] =~= Seq::new(
                NRES as nat,
                |j: int| 0int,
            ) by {}
            assert forall|j: int| 0 <= j < r@.kinds() implies #[trigger] r@.total(j)
                <= usize::MAX by {
                lemma_given_back_zero(r@.allocation, all_threads(r@.threads()), j);
            }
        }
        r
    }

    /// Tells whether thread `i` can get all it may still ask for out of `work`.
    fn can_finish(&self, i: usize, work: &[usize; NRES]) -> (r: bool)
        requires
            self@.wf(),
            i < NTH,
        ensures
            r == self@.covers(Seq::new(NRES as nat, |j: int| work[j] as int), i as int),
    {
        let ghost w = Seq::new(NRES as nat, |j: int| work[j] as int);
        let mut j: usize = 0;
        while j < NRES
            invariant
                self@.wf(),
                i < NTH,
                j <= NRES,
                w == Seq::new(NRES as nat, |j: int| work[j] as int),
                forall|k: int|
                    0 <= k < j ==> self@.max[i as int][k] - self@.allocation[i as int][k]
                        <= #[trigger] w[k],
            decreases NRES - j,
        {
            assert(0 <= self@.allocation[i as int][j as int] <= self@.max[i as int][j as int]);
            if work[j] < self.max[i][j] - self.allocation[i][j] {
                assert(!(self@.max[i as int][j as int] - self@.allocation[i as int][j as int]
                    <= w[j as int]));
                return false;
            }
            j = j + 1;
        }
        true
    }

    /// Tells whether the state is safe: whether the threads can run to their
    /// ends one after the other, each with what is free and what those
    /// before it gave back.
    pub fn is_safe(&self) -> (r: bool)
        requires
            self@.wf(),
        ensures
            r == self@.safe(),
    {
        let mut finish = [false; NTH];
        let mut work = self.available;
        let ghost mut done: Seq<int> = Seq::empty();
        loop
            invariant
                self@.wf(),
                self@.runs(done),
                forall|i: int| 0 <= i < NTH ==> (#[trigger] finish[i] <==> done.contains(i)),
                Seq::new(NRES as nat, |j: int| work[j] as int) == self@.work_after(done),
            decreases NTH - done.len(),
        {
            let ghost w = Seq::new(NRES as nat, |j: int| work[j] as int);
            let mut found = false;
            let mut num_true: usize = 0;
            let mut i: usize = 0;
            while i < NTH && !found
                invariant
                    self@.wf(),
                    i <= NTH,
                    num_true <= i,
                    w == Seq::new(NRES as nat, |j: int| work[j] as int),
                    found ==> i < NTH && !finish[i as int] && self@.covers(w, i as int),
                    !found ==> ((num_true == i) <==> (forall|k: int|
                        0 <= k < i ==> #[trigger] finish[k])),
                    !found ==> forall|k: int|
                        0 <= k < i ==> #[trigger] finish[k] || !self@.covers(w, k),
                decreases NTH - i + if found { 0int } else { 1int },
            {
                if finish[i] {
                    num_true = num_true + 1;
                    i = i + 1;
                } else if self.can_finish(i, &work) {
                    found = true;
                } else {
                    i = i + 1;
                }
            }
            proof {
                lemma_distinct_threads(done, NTH as int);
            }
            if num_true == NTH {
                proof {
                    assert forall|p: int| 0 <= p < NTH implies done.contains(p) by {
                        assert(finish[p]);
                    }
                    lemma_distinct_threads_cover(done, NTH as int);
                }
                return true;
            }
            if !found {
                proof {
                    self.lemma_stuck_is_unsafe(done, w, finish@);
                }
                return false;
            }
            proof {
                assert forall|j: int| 0 <= j < NRES implies w[j] + self@.allocation[i as int][j]
                    <= usize::MAX by {
                    self.lemma_work_fits(done.push(i as int), j);
                    lemma_given_back_push(self@.allocation, done, i as int, j);
                }
            }
            finish[i] = true;
            let mut j: usize = 0;
            while j < NRES
                invariant
                    self@.wf(),
                    i < NTH,
                    j <= NRES,
                    w.len() == NRES,
                    forall|k: int|
                        0 <= k < NRES ==> w[k] + self@.allocation[i as int][k] <= usize::MAX,
                    forall|k: int| 0 <= k < j ==> work[k] == w[k] + self@.allocation[i as int][k],
                    forall|k: int| j <= k < NRES ==> work[k] == w[k],
                decreases NRES - j,
            {
                assert(work[j as int] == w[j as int]);
                work[j] = work[j] + self.allocation[i][j];
                j = j + 1;
            }
            proof {
                let before = done;
                done = done.push(i as int);
                assert forall|j: int| 0 <= j < NRES implies work[j] as int == self@.work_after(
                    done,
                )[j] by {
                    lemma_given_back_push(self@.allocation, before, i as int, j);
                }
                assert forall|p: int| 0 <= p < done.len() implies self@.covers(
                    self@.work_after(done.take(p)),
                    #[trigger] done[p],
                ) by {
                    if p < before.len() {
                        assert(done.take(p) =~= before.take(p));
                    } else {
                        assert(done.take(p) =~= before);
                    }
                }
                assert forall|k: int| 0 <= k < NTH implies (#[trigger] finish[k] <==> done.contains(
                    k,
                )) by {
                    if k == i {
                        assert(done[before.len() as int] == k);
                    } else if before.contains(k) {
                        let q = choose|q: int| 0 <= q < before.len() && before[q] == k;
                        assert(done[q] == k);
                    }
                }
                lemma_distinct_threads(done, NTH as int);
            }
        }
    }

    /// Thread `id` asks for one unit of `resource`. It gets it if a unit is
    /// free, the thread stays within its maximum, and the state that results
    /// is safe. Otherwise nothing changes.
    pub fn take(&mut self, id: usize, resource: usize) -> (r: bool)
        requires
            old(self)@.wf(),
        ensures
            r == (id < NTH && resource < NRES && old(self)@.available[resource as int] > 0 && old(
                self,
            )@.allocation[id as int][resource as int] < old(self)@.max[id as int][resource as int]
                && old(self)@.granted(id as int, resource as int).safe()),
            final(self)@ == if r {
                old(self)@.granted(id as int, resource as int)
            } else {
                old(self)@
            },
            final(self)@.wf(),
    {
        if id >= NTH || resource >= NRES || self.available[resource] == 0 {
            return false;
        }
        if self.allocation[id][resource] >= self.max[id][resource] {
            return false;
        }
        proof {
            lemma_granted_wf(self@, id as int, resource as int);
        }
        self.available[resource] -= 1;
        self.allocation[id][resource] += 1;
        proof {
            let g = old(self)@.granted(id as int, resource as int);
            assert(self@.available =~= g.available);
            assert forall|i: int| 0 <= i < NTH implies #[trigger] self@.allocation[i]
                =~= g.allocation[i] by {}
            assert(self@.allocation =~= g.allocation);
        }
        if self.is_safe() {
            true
        } else {
            self.allocation[id][resource] -= 1;
            self.available[resource] += 1;
            proof {
                let g = old(self)@;
                assert(self@.available =~= g.available);
                assert forall|i: int| 0 <= i < NTH implies #[trigger] self@.allocation[i]
                    =~= g.allocation[i] by {}
                assert(self@.allocation =~= g.allocation);
            }
            false
        }
    }

    /// Thread `id` gives back one unit of `resource`, if it holds one.
    pub fn release(&mut self, id: usize, resource: usize)
        requires
            old(self)@.wf(),
        ensures
            final(self)@ == if id < NTH && resource < NRES && old(
                self,
            )@.allocation[id as int][resource as int] > 0 {
                old(self)@.returned(id as int, resource as int)
            } else {
                old(self)@
            },
            final(self)@.wf(),
    {
        if id >= NTH || resource >= NRES || self.allocation[id][resource] == 0 {
            return ;
        }
        proof {
            lemma_returned_wf(self@, id as int, resource as int);
        }
        self.allocation[id][resource] -= 1;
        self.available[resource] += 1;
        proof {
            let g = old(self)@.returned(id as int, resource as int);
            assert(self@.available =~= g.available);
            assert forall|i: int| 0 <= i < NTH implies #[trigger] self@.allocation[i]
                =~= g.allocation[i] by {}
            assert(self@.allocation =~= g.allocation);
        }
    }

    /// With only the threads `done` ended, what is free of resource `j` fits
    /// in a `usize`.
    proof fn lemma_work_fits(self, done: Seq<int>, j: int)
        requires
            self@.wf(),
            done.no_duplicates(),
            forall|p: int| 0 <= p < done.len() ==> 0 <= #[trigger] done[p] < NTH,
            0 <= j < NRES,
        ensures
            self@.available[j] + given_back(self@.allocation, done, j) <= usize::MAX,
    {
        let all = all_threads(NTH as int);
        assert forall|p: int| 0 <= p < done.len() implies all.contains(#[trigger] done[p]) by {
            assert(all[done[p]] == done[p]);
        }
        lemma_given_back_part(self@.allocation, done, all, j);
        assert(self@.total(j) <= usize::MAX);
    }

    /// When no thread that has not ended can get all it may still ask for,
    /// and some thread has not ended, no order lets them all run to their ends.
    proof fn lemma_stuck_is_unsafe(self, done: Seq<int>, work: Seq<int>, finish: Seq<bool>)
        requires
            self@.wf(),
            self@.runs(done),
            finish.len() == NTH,
            forall|i: int| 0 <= i < NTH ==> (#[trigger] finish[i] <==> done.contains(i)),
            work == self@.work_after(done),
            exists|k: int| 0 <= k < NTH && !finish[k],
            forall|k: int| 0 <= k < NTH ==> #[trigger] finish[k] || !self@.covers(work, k),
        ensures
            !self@.safe(),
    {
        if self@.safe() {
            let order = choose|order: Seq<int>|
                order.len() == self@.threads() && #[trigger] self@.runs(order);
            lemma_distinct_threads(order, NTH as int);
            let k = choose|k: int| 0 <= k < NTH && !finish[k];
            assert(order.contains(k));
            let q = choose|q: int| 0 <= q < order.len() && order[q] == k;
            let p = first_outside(order, done, q);
            let t = order[p];
            let front = order.take(p);
            assert(!finish[t]);
            assert forall|j: int| 0 <= j < NRES implies self@.max[t][j] - self@.allocation[t][j]
                <= #[trigger] work[j] by {
                lemma_given_back_part(self@.allocation, front, done, j);
                assert(self@.work_after(front)[j] <= work[j]);
            }
        }
    }
}

/// The first position of `order`, at or before `q`, whose thread is not in `done`.
pub proof fn first_outside(order: Seq<int>, done: Seq<int>, q: int) -> (p: int)
    requires
        0 <= q < order.len(),
        !done.contains(order[q]),
    ensures
        0 <= p <= q,
        !done.contains(order[p]),
        forall|x: int| 0 <= x < p ==> done.contains(#[trigger] order[x]),
    decreases q,
{
    if exists|x: int| 0 <= x < q && !done.contains(order[x]) {
        let x = choose|x: int| 0 <= x < q && !done.contains(order[x]);
        first_outside(order, done, x)
    } else {
        q
    }
}

/// Distinct threads that include every thread are as many as there are threads.
pub proof fn lemma_distinct_threads_cover(order: Seq<int>, n: int)
    requires
        0 <= n,
        order.no_duplicates(),
        forall|p: int| 0 <= p < order.len() ==> 0 <= #[trigger] order[p] < n,
        forall|i: int| 0 <= i < n ==> order.contains(i),
    ensures
        order.len() == n,
{
    vstd::set_lib::lemma_int_range(0, n);
    let range = vstd::set_lib::set_int_range(0, n);
    order.unique_seq_to_set();
    assert(order.to_set() =~= range);
}

/// Handing a free unit to a thread that stays within its maximum keeps the
/// tables well formed, and the total of every resource as it was.
pub proof fn lemma_granted_wf(l: Ledger, id: int, resource: int)
    requires
        l.wf(),
        0 <= id < l.threads(),
        0 <= resource < l.kinds(),
        l.available[resource] > 0,
        l.allocation[id][resource] < l.max[id][resource],
    ensures
        l.granted(id, resource).wf(),
        forall|j: int| 0 <= j < l.kinds() ==> l.granted(id, resource).total(j) == l.total(j),
{
    let g = l.granted(id, resource);
    let all = all_threads(l.threads());
    assert(all[id] == id);
    assert forall|j: int| 0 <= j < l.kinds() implies g.total(j) == l.total(j) by {
        lemma_given_back_update(
            l.allocation,
            all,
            id,
            resource,
            l.allocation[id][resource] + 1,
            j,
        );
    }
}

/// Taking a unit back from a thread that holds one keeps the tables well
/// formed, and the total of every resource as it was.
pub proof fn lemma_returned_wf(l: Ledger, id: int, resource: int)
    requires
        l.wf(),
        0 <= id < l.threads(),
        0 <= resource < l.kinds(),
        l.allocation[id][resource] > 0,
    ensures
        l.returned(id, resource).wf(),
        forall|j: int| 0 <= j < l.kinds() ==> l.returned(id, resource).total(j) == l.total(j),
        l.available[resource] + 1 <= usize::MAX,
{
    let g = l.returned(id, resource);
    let all = all_threads(l.threads());
    assert(all[id] == id);
    assert(l.available[resource] + 1 <= usize::MAX) by {
        let one = Seq::<int>::empty().push(id);
        lemma_given_back_push(l.allocation, Seq::<int>::empty(), id, resource);
        lemma_given_back_part(l.allocation, one, all, resource);
        assert(l.total(resource) <= usize::MAX);
    }
    assert forall|j: int| 0 <= j < l.kinds() implies g.total(j) == l.total(j) by {
        lemma_given_back_update(
            l.allocation,
            all,
            id,
            resource,
            l.allocation[id][resource] - 1,
            j,
        );
    }
}

/// A safe state stays safe when a thread gives a unit back: the order in
/// which the threads could run to their ends still serves.
pub proof fn lemma_release_keeps_safe(l: Ledger, id: int, resource: int)
    requires
        l.wf(),
        l.safe(),
        0 <= id < l.threads(),
        0 <= resource < l.kinds(),
        l.allocation[id][resource] > 0,
    ensures
        l.returned(id, resource).safe(),
{
    let order = choose|order: Seq<int>| order.len() == l.threads() && #[trigger] l.runs(order);
    let r = l.returned(id, resource);
    lemma_returned_wf(l, id, resource);
    assert forall|p: int| 0 <= p < order.len() implies r.covers(
        r.work_after(order.take(p)),
        #[trigger] order[p],
    ) by {
        let front = order.take(p);
        let t = order[p];
        assert forall|j: int| 0 <= j < r.kinds() implies r.max[t][j] - r.allocation[t][j]
            <= #[trigger] r.work_after(front)[j] by {
            lemma_given_back_update(
                l.allocation,
                front,
                id,
                resource,
                l.allocation[id][resource] - 1,
                j,
            );
            assert(l.max[t][j] - l.allocation[t][j] <= l.work_after(front)[j]);
        }
    }
    assert(r.runs(order));
}

/// Giving a unit back undoes taking it.
pub proof fn lemma_release_undoes_take(l: Ledger, id: int, resource: int)
    requires
        l.wf(),
        0 <= id < l.threads(),
        0 <= resource < l.kinds(),
    ensures
        l.granted(id, resource).returned(id, resource) == l,
{
    let back = l.granted(id, resource).returned(id, resource);
    assert(back.available =~= l.available);
    assert(back.allocation[id] =~= l.allocation[id]);
    assert(back.allocation =~= l.allocation);
}

/// The banker: grants a unit of a resource only if the threads can still all
/// run to their ends afterwards.
pub struct Banker<const NRES: usize, const NTH: usize> {
    resource: Resource<NRES, NTH>,
}

impl<const NRES: usize, const NTH: usize> View for Banker<NRES, NTH> {
    type V = Ledger;

    closed spec fn view(&self) -> Ledger {
        self.resource@
    }
}

impl<const NRES: usize, const NTH: usize> Banker<NRES, NTH> {
    /// A banker with `available` free units, for threads of which thread `i`
    /// will never hold more than `max[i]`.
    pub fn new(available: [usize; NRES], max: [[usize; NRES]; NTH]) -> (r: Self)
        ensures
            r@.available == Seq::new(NRES as nat, |j: int| available[j] as int),
            r@.max == Seq::new(
                NTH as nat,
                |i: int| Seq::new(NRES as nat, |j: int| max[i][j] as int),
            ),
            r@.allocation == Seq::new(NTH as nat, |i: int| Seq::new(NRES as nat, |j: int| 0int)),
            r@.wf(),
    {
        Banker { resource: Resource::new(available, max) }
    }

    /// Thread `id` asks for one unit of `resource`; see `Resource::take`.
    pub fn take(&mut self, id: usize, resource: usize) -> (r: bool)
        requires
            old(self)@.wf(),
        ensures
            r == (id < NTH && resource < NRES && old(self)@.available[resource as int] > 0 && old(
                self,
            )@.allocation[id as int][resource as int] < old(self)@.max[id as int][resource as int]
                && old(self)@.granted(id as int, resource as int).safe()),
            final(self)@ == if r {
                old(self)@.granted(id as int, resource as int)
            } else {
                old(self)@
            },
            final(self)@.wf(),
    {
        self.resource.take(id, resource)
    }

    /// Thread `id` gives back one unit of `resource`, if it holds one.
    pub fn release(&mut self, id: usize, resource: usize)
        requires
            old(self)@.wf(),
        ensures
            final(self)@ == if id < NTH && resource < NRES && old(
                self,
            )@.allocation[id as int][resource as int] > 0 {
                old(self)@.returned(id as int, resource as int)
            } else {
                old(self)@
            },
            final(self)@.wf(),
    {
        self.resource.release(id, resource)
    }
}

} // verus!
