//! A software transactional memory in the manner of TL2: transactions read
//! and write stripes of a small memory, each guarded by a word that holds a
//! lock bit and a version, and commit against a global version clock.

use crate::fences::acquire_fence;
use crate::fences::full_fence;
use crate::fences::release_fence;
use std::collections::HashMap;
use std::collections::HashSet;
use std::sync::atomic::AtomicU64;
use std::sync::atomic::Ordering;
use vstd::prelude::*;
use vstd::std_specs::iter::IteratorSpec;

verus! {

/// Size of a stripe in bytes: the unit of locking and versioning.
pub const STRIPE_SIZE: usize = 8;

/// Size of the transactional memory in bytes.
pub const MEM_SIZE: usize = 512;

/// How far an address is shifted to the right to give the number of its stripe.
pub const STRIPE_SHIFT: usize = 3;

/// Number of stripes of the memory.
pub const STRIPES: usize = 64;

/// The bit of a lock-and-version word that says the stripe is locked. The
/// other bits are the version.
pub const LOCK_BIT: u64 = 0x8000_0000_0000_0000;

/// `addr` is the start of a stripe of the memory.
pub open spec fn stripe_start(addr: usize) -> bool {
    addr % STRIPE_SIZE == 0 && addr + STRIPE_SIZE <= MEM_SIZE
}

/// Tells whether `addr` is the start of a stripe of the memory.
pub fn stripe_ok(addr: usize) -> (r: bool)
    ensures
        r == stripe_start(addr),
{
    addr % STRIPE_SIZE == 0 && addr <= MEM_SIZE - STRIPE_SIZE
}

/// The number of the stripe that `addr` lies in.
pub open spec fn stripe_of(addr: usize) -> int {
    addr as int / STRIPE_SIZE as int
}

/// The version in a lock-and-version word.
pub open spec fn version_of(word: u64) -> u64 {
    word & !LOCK_BIT
}

/// The word says that the stripe is locked.
pub open spec fn is_locked(word: u64) -> bool {
    word & LOCK_BIT != 0
}

/// What locking does to a lock-and-version word: a word that is not locked
/// becomes the same version, locked; a locked one is left alone.
pub fn lock_word(word: u64) -> (r: Option<u64>)
    ensures
        r == if is_locked(word) {
            None::<u64>
        } else {
            Some(word | LOCK_BIT)
        },
        r is Some ==> is_locked(r->0) && version_of(r->0) == version_of(word),
{
    if word & LOCK_BIT == 0 {
        assert((word | LOCK_BIT) & LOCK_BIT != 0 && (word | LOCK_BIT) & !LOCK_BIT == word
            & !LOCK_BIT) by (bit_vector)
            requires
                LOCK_BIT == 0x8000_0000_0000_0000u64,
        ;
        Some(word | LOCK_BIT)
    } else {
        None
    }
}

/// The version in the lock-and-version word `word`, without its lock bit.
pub fn version(word: u64) -> (ver: u64)
    ensures
        ver == version_of(word),
        !is_locked(ver),
        ver < LOCK_BIT,
{
    assert((word & !LOCK_BIT) & LOCK_BIT == 0 && (word & !LOCK_BIT) < LOCK_BIT) by (bit_vector)
        requires
            LOCK_BIT == 0x8000_0000_0000_0000u64,
    ;
    word & !LOCK_BIT
}

/// Tells whether a stripe whose lock-and-version word is `word` is as a
/// transaction of version `rv` may read it: unlocked, and not newer than the
/// transaction. The lock bit is the highest one, so one comparison tests
/// both, as long as `rv` is itself a version.
pub fn unmodified(word: u64, rv: u64) -> (r: bool)
    ensures
        r == (word <= rv),
        rv < LOCK_BIT ==> r == (!is_locked(word) && version_of(word) <= rv),
{
    assert(rv < LOCK_BIT ==> ((word <= rv) == (word & LOCK_BIT == 0 && (word & !LOCK_BIT)
        <= rv))) by (bit_vector)
        requires
            LOCK_BIT == 0x8000_0000_0000_0000u64,
    ;
    word <= rv
}

/// Clearing the lock bit of a word unlocks it and keeps its version: what
/// unlocking a stripe does to its word.
pub proof fn lemma_unlocked_word(word: u64)
    ensures
        !is_locked(word & !LOCK_BIT),
        version_of(word & !LOCK_BIT) == version_of(word),
{
    assert((word & !LOCK_BIT) & LOCK_BIT == 0 && (word & !LOCK_BIT) & !LOCK_BIT == word
        & !LOCK_BIT) by (bit_vector)
        requires
            LOCK_BIT == 0x8000_0000_0000_0000u64,
    ;
}

/// The memory that transactions read and write: its bytes, one
/// lock-and-version word per stripe, and the global version clock.
pub struct Memory {
    mem: Vec<u8>,
    lock_ver: Vec<AtomicU64>,
    global_clock: AtomicU64,
    shift_size: usize,
}

impl View for Memory {
    type V = Seq<u8>;

    /// The bytes of the memory.
    closed spec fn view(&self) -> Seq<u8> {
        self.mem@
    }
}

impl Memory {
    /// The memory has `MEM_SIZE` bytes and a lock-and-version word for every stripe.
    pub closed spec fn wf(self) -> bool {
        &&& self.mem@.len() == MEM_SIZE
        &&& self.lock_ver@.len() == STRIPES
        &&& self.shift_size == STRIPE_SHIFT
    }

    /// A memory of zeros, every stripe unlocked at version 0, the clock at 0.
    pub fn new() -> (m: Self)
        ensures
            m.wf(),
            m@ == Seq::new(MEM_SIZE as nat, |i: int| 0u8),
    {
        let mut mem: Vec<u8> = Vec::new();
        let mut i: usize = 0;
        while i < MEM_SIZE
            invariant
                i <= MEM_SIZE,
                mem@ == Seq::new(i as nat, |k: int| 0u8),
            decreases MEM_SIZE - i,
        {
            mem.push(0);
            i = i + 1;
        }
        let mut lock_ver: Vec<AtomicU64> = Vec::new();
        let mut n: usize = 0;
        while n < STRIPES
            invariant
                n <= STRIPES,
                lock_ver@.len() == n,
            decreases STRIPES - n,
        {
            lock_ver.push(AtomicU64::new(0));
            n = n + 1;
        }
        Memory { mem, lock_ver, global_clock: AtomicU64::new(0), shift_size: STRIPE_SHIFT }
    }

    /// The number of the stripe that starts at `addr`.
    fn stripe_index(&self, addr: usize) -> (idx: usize)
        requires
            self.wf(),
            addr < MEM_SIZE,
        ensures
            idx < STRIPES,
            idx == stripe_of(addr),
    {
        assert(addr >> 3usize == addr / 8usize && (addr >> 3usize) < 64usize) by (bit_vector)
            requires
                addr < 512usize,
        ;
        addr >> self.shift_size
    }

    /// Reads the lock-and-version word of stripe `idx`.
    fn word(&self, idx: usize) -> (w: u64)
        requires
            self.wf(),
            idx < STRIPES,
    {
        self.lock_ver[idx].load(Ordering::Relaxed)
    }

    /// Reads the global version clock.
    fn clock(&self) -> (c: u64) {
        self.global_clock.load(Ordering::Acquire)
    }

    /// Moves the global version clock on by one and returns its value before.
    fn inc_global_clock(&mut self) -> (c: u64)
        ensures
            final(self).wf() == old(self).wf(),
            final(self)@ == old(self)@,
    {
        self.global_clock.fetch_add(1, Ordering::AcqRel)
    }

    /// The version of the stripe that starts at `addr`, without its lock bit.
    fn get_addr_ver(&self, addr: usize) -> (ver: u64)
        requires
            self.wf(),
            addr < MEM_SIZE,
        ensures
            !is_locked(ver),
            ver < LOCK_BIT,
    {
        let idx = self.stripe_index(addr);
        version(self.word(idx))
    }

    /// Tells whether the stripe that starts at `addr` was seen unlocked and at
    /// a version of at most `rv`: what `unmodified` says of its word.
    fn test_not_modify(&self, addr: usize, rv: u64) -> (r: bool)
        requires
            self.wf(),
            addr < MEM_SIZE,
    {
        let idx = self.stripe_index(addr);
        unmodified(self.word(idx), rv)
    }

    /// Tries to lock the stripe that starts at `addr`; tells whether it did.
    fn lock_addr(&mut self, addr: usize) -> (r: bool)
        requires
            old(self).wf(),
            addr < MEM_SIZE,
        ensures
            final(self).wf(),
            final(self)@ == old(self)@,
    {
        let idx = self.stripe_index(addr);
        match fetch_lock(&self.lock_ver[idx]) {
            Ok(_) => true,
            Err(_) => false,
        }
    }

    /// Unlocks the stripe that starts at `addr`.
    fn unlock_addr(&mut self, addr: usize)
        requires
            old(self).wf(),
            addr < MEM_SIZE,
        ensures
            final(self).wf(),
            final(self)@ == old(self)@,
    {
        let idx = self.stripe_index(addr);
        self.clear_lock_bit(idx);
    }

    /// Clears the lock bit of stripe `idx`.
    fn clear_lock_bit(&self, idx: usize)
        requires
            self.wf(),
            idx < STRIPES,
    {
        self.lock_ver[idx].fetch_and(!LOCK_BIT, Ordering::Relaxed);
    }

    /// Gives stripe `idx` the version `ver`, which also unlocks it.
    fn set_version(&self, idx: usize, ver: u64)
        requires
            self.wf(),
            idx < STRIPES,
    {
        self.lock_ver[idx].store(ver, Ordering::Relaxed);
    }

    /// Copies the stripe that starts at `addr` out of the memory.
    fn read_stripe(&self, addr: usize) -> (r: [u8; 8])
        requires
            self.wf(),
            stripe_start(addr),
        ensures
            r@ == self@.subrange(addr as int, addr + STRIPE_SIZE),
    {
        let mut out = [0u8; 8];
        let mut k: usize = 0;
        while k < STRIPE_SIZE
            invariant
                self.wf(),
                stripe_start(addr),
                k <= STRIPE_SIZE,
                forall|i: int| 0 <= i < k ==> out[i] == self@[addr + i],
            decreases STRIPE_SIZE - k,
        {
            out[k] = self.mem[addr + k];
            k = k + 1;
        }
        out
    }

    /// Copies `val` into the stripe that starts at `addr`.
    fn write_stripe(&mut self, addr: usize, val: &[u8; 8])
        requires
            old(self).wf(),
            stripe_start(addr),
        ensures
            final(self).wf(),
            final(self)@ == written(old(self)@, addr, val@),
    {
        let mut k: usize = 0;
        while k < STRIPE_SIZE
            invariant
                self.wf(),
                stripe_start(addr),
                k <= STRIPE_SIZE,
                self@.len() == old(self)@.len(),
                forall|i: int| 0 <= i < k ==> self@[addr + i] == val[i],
                forall|i: int|
                    0 <= i < self@.len() && !(addr <= i < addr + k) ==> self@[i] == old(self)@[i],
            decreases STRIPE_SIZE - k,
        {
            self.mem[addr + k] = val[k];
            k = k + 1;
        }
    }
}

/// The bytes `bytes` with the stripe that starts at `addr` replaced by `val`.
pub open spec fn written(bytes: Seq<u8>, addr: usize, val: Seq<u8>) -> Seq<u8> {
    Seq::new(
        bytes.len(),
        |i: int|
            if addr <= i < addr + STRIPE_SIZE {
                val[i - addr]
            } else {
                bytes[i]
            },
    )
}

/// Calls `AtomicU64::fetch_update` with relaxed orderings and `lock_word` as
/// the update: in one atomic step the word is locked if it was not. Returns
/// what `fetch_update` returns: `Ok` with the word as it was if the update was
/// made, `Err` with it if not. The word belongs to all threads, so nothing is
/// claimed of what it holds.
#[verifier::external_body]
fn fetch_lock(word: &AtomicU64) -> (r: Result<u64, u64>) {
    word.fetch_update(Ordering::Relaxed, Ordering::Relaxed, |val| lock_word(val))
}

/// A transaction that only reads.
pub struct ReadTrans<'a> {
    read_ver: u64,
    is_abort: bool,
    mem: &'a Memory,
}

impl<'a> ReadTrans<'a> {
    /// A conflict was seen: the transaction has to be run again.
    pub closed spec fn aborted(self) -> bool {
        self.is_abort
    }

    /// The version of the clock when the transaction began.
    pub closed spec fn read_version(self) -> u64 {
        self.read_ver
    }

    /// The bytes of the memory that the transaction reads.
    pub closed spec fn bytes(self) -> Seq<u8> {
        self.mem@
    }

    /// The memory that the transaction reads is well formed.
    pub closed spec fn wf(self) -> bool {
        self.mem.wf()
    }

    /// Begins a transaction on `mem` at the present version of the clock.
    pub fn new(mem: &'a Memory) -> (tr: Self)
        requires
            mem.wf(),
        ensures
            tr.wf(),
            !tr.aborted(),
            tr.bytes() == mem@,
    {
        ReadTrans { is_abort: false, read_ver: mem.clock(), mem }
    }

    /// Tells whether a conflict was seen.
    pub fn is_aborted(&self) -> (r: bool)
        ensures
            r == self.aborted(),
    {
        self.is_abort
    }

    /// Reads the stripe that starts at `addr`. Gives `None`, and marks the
    /// transaction as aborted, when the stripe is locked or newer than the
    /// transaction, before the read or after it; gives `None` at once when
    /// the transaction is aborted already.
    pub fn load(&mut self, addr: usize) -> (r: Option<[u8; 8]>)
        requires
            old(self).wf(),
            stripe_start(addr),
        ensures
            final(self).wf(),
            final(self).bytes() == old(self).bytes(),
            final(self).read_version() == old(self).read_version(),
            old(self).aborted() ==> r is None,
            final(self).aborted() <==> r is None,
            r is Some ==> r->0@ == old(self).bytes().subrange(addr as int, addr + STRIPE_SIZE),
    {
        if self.is_abort {
            return None;
        }
        if !self.mem.test_not_modify(addr, self.read_ver) {
            self.is_abort = true;
            return None;
        }
        acquire_fence();
        let mem = self.mem.read_stripe(addr);
        full_fence();
        if !self.mem.test_not_modify(addr, self.read_ver) {
            self.is_abort = true;
            return None;
        }
        Some(mem)
    }
}

/// The state of a writing transaction, as mathematics.
pub ghost struct WriteState {
    /// The version of the clock when the transaction began.
    pub read_ver: u64,
    /// The addresses read so far.
    pub read_set: Set<usize>,
    /// The stripes to write at the end, by address.
    pub write_set: Map<usize, [u8; 8]>,
    /// The addresses whose stripes the transaction holds locked.
    pub locked: Seq<usize>,
    /// A conflict was seen.
    pub is_abort: bool,
    /// The bytes of the memory.
    pub bytes: Seq<u8>,
}

/// The start of the stripe that the byte at `i` lies in.
pub open spec fn stripe_base(i: int) -> usize {
    (i - i % 8) as usize
}

/// The bytes `bytes` after every stripe of `writes` was written.
pub open spec fn committed(bytes: Seq<u8>, writes: Map<usize, [u8; 8]>) -> Seq<u8> {
    Seq::new(
        bytes.len(),
        |i: int|
            if writes.contains_key(stripe_base(i)) {
                writes[stripe_base(i)][i - stripe_base(i)]
            } else {
                bytes[i]
            },
    )
}

impl WriteState {
    /// Every address read, every address in the write set and every locked
    /// address is the start of a stripe, and the memory has its size.
    pub open spec fn wf(self) -> bool {
        &&& self.bytes.len() == MEM_SIZE
        &&& forall|a: usize| #[trigger] self.read_set.contains(a) ==> stripe_start(a)
        &&& forall|a: usize| #[trigger] self.write_set.contains_key(a) ==> stripe_start(a)
        &&& forall|i: int| 0 <= i < self.locked.len() ==> stripe_start(#[trigger] self.locked[i])
    }
}

/// A transaction that reads and writes. Its writes are kept in the write set
/// and reach the memory only when it commits.
pub struct WriteTrans<'a> {
    read_ver: u64,
    read_set: HashSet<usize>,
    write_set: HashMap<usize, [u8; 8]>,
    locked: Vec<usize>,
    is_abort: bool,
    mem: &'a mut Memory,
}

impl<'a> View for WriteTrans<'a> {
    type V = WriteState;

    closed spec fn view(&self) -> WriteState {
        WriteState {
            read_ver: self.read_ver,
            read_set: self.read_set@,
            write_set: self.write_set@,
            locked: self.locked@,
            is_abort: self.is_abort,
            bytes: self.mem@,
        }
    }
}

impl<'a> WriteTrans<'a> {
    /// The transaction's state and its memory are well formed.
    pub closed spec fn wf(self) -> bool {
        self@.wf() && self.mem.wf()
    }

    /// Begins a transaction on `mem` at the present version of the clock,
    /// with nothing read, written or locked.
    pub fn new(mem: &'a mut Memory) -> (tr: Self)
        requires
            old(mem).wf(),
        ensures
            tr.wf(),
            tr@.read_set == Set::<usize>::empty(),
            tr@.write_set == Map::<usize, [u8; 8]>::empty(),
            tr@.locked == Seq::<usize>::empty(),
            !tr@.is_abort,
            tr@.bytes == old(mem)@,
    {
        let read_ver = mem.clock();
        WriteTrans {
            read_set: HashSet::new(),
            write_set: HashMap::new(),
            locked: Vec::new(),
            is_abort: false,
            read_ver,
            mem,
        }
    }

    /// Tells whether a conflict was seen.
    pub fn is_aborted(&self) -> (r: bool)
        ensures
            r == self@.is_abort,
    {
        self.is_abort
    }

    /// Notes that the stripe that starts at `addr` is to become `val`.
    pub fn store(&mut self, addr: usize, val: [u8; 8])
        requires
            old(self).wf(),
            stripe_start(addr),
        ensures
            final(self).wf(),
            final(self)@ == (WriteState {
                write_set: old(self)@.write_set.insert(addr, val),
                ..old(self)@
            }),
    {
        self.write_set.insert(addr, val);
    }

    /// Reads the stripe that starts at `addr`, and notes the address in the
    /// read set. What the transaction itself stored there is read back from
    /// the write set. Otherwise the stripe is read from the memory: `None`,
    /// with the transaction marked as aborted, when it is locked or newer
    /// than the transaction. An aborted transaction reads `None` at once.
    pub fn load(&mut self, addr: usize) -> (r: Option<[u8; 8]>)
        requires
            old(self).wf(),
            stripe_start(addr),
        ensures
            final(self).wf(),
            old(self)@.is_abort ==> r is None && final(self)@ == old(self)@,
            !old(self)@.is_abort ==> final(self)@ == (WriteState {
                read_set: old(self)@.read_set.insert(addr),
                is_abort: r is None,
                ..old(self)@
            }),
            !old(self)@.is_abort && old(self)@.write_set.contains_key(addr) ==> r == Some(
                old(self)@.write_set[addr],
            ),
            r is Some && !old(self)@.write_set.contains_key(addr) ==> r->0@ == old(
                self,
            )@.bytes.subrange(addr as int, addr + STRIPE_SIZE),
    {
        if self.is_abort {
            return None;
        }
        self.read_set.insert(addr);
        if let Some(m) = self.write_set.get(&addr) {
            return Some(*m);
        }
        if !self.mem.test_not_modify(addr, self.read_ver) {
            self.is_abort = true;
            return None;
        }
        acquire_fence();
        let mem = self.mem.read_stripe(addr);
        full_fence();
        if !self.mem.test_not_modify(addr, self.read_ver) {
            self.is_abort = true;
            return None;
        }
        Some(mem)
    }

    /// Locks the stripes of the write set, one by one, and notes each locked
    /// address. Stops at the first stripe that another transaction holds.
    /// Tells whether all of them were locked; with nothing to lock, they are.
    pub fn lock_write_set(&mut self) -> (r: bool)
        requires
            old(self).wf(),
        ensures
            final(self).wf(),
            final(self)@ == (WriteState { locked: final(self)@.locked, ..old(self)@ }),
            old(self)@.locked.is_prefix_of(final(self)@.locked),
            forall|i: int|
                old(self)@.locked.len() <= i < final(self)@.locked.len() ==> old(
                    self,
                )@.write_set.contains_key(#[trigger] final(self)@.locked[i]),
            forall|i: int, j: int|
                old(self)@.locked.len() <= i < j < final(self)@.locked.len()
                    ==> final(self)@.locked[i] != final(self)@.locked[j],
            r ==> final(self)@.locked.len() == old(self)@.locked.len() + old(
                self,
            )@.write_set.dom().len(),
            r ==> forall|a: usize| #[trigger]
                old(self)@.write_set.contains_key(a) ==> final(self)@.locked.contains(a),
            old(self)@.write_set.dom().len() == 0 ==> r,
    {
        let ghost start = self.locked@;
        let ghost keys = vstd::std_specs::hash::spec_hash_map_iter(&self.write_set).remaining();
        let ghost mut n: int = 0;
        for kv in it: self.write_set.iter()
            invariant
                self.wf(),
                self@ == (WriteState { locked: self@.locked, ..old(self)@ }),
                keys == vstd::std_specs::hash::spec_hash_map_iter(&self.write_set).remaining(),
                it.seq() == keys,
                keys.no_duplicates(),
                n == it.index(),
                start == old(self)@.locked,
                self.locked@.len() == start.len() + it.index(),
                forall|j: int| 0 <= j < start.len() ==> self.locked@[j] == start[j],
                forall|j: int|
                    0 <= j < it.index() ==> self.locked@[start.len() + j] == *(
                    #[trigger] it.seq()[j]).0,
        {
            let addr = *kv.0;
            let ghost s0 = self@;
            assert(self.write_set@.contains_key(*it.seq()[it.index()].0));
            if self.mem.lock_addr(addr) {
                self.locked.push(addr);
                proof {
                    assert(self@ == (WriteState { locked: self@.locked, ..s0 }));
                    n = n + 1;
                }
            } else {
                proof {
                    self.lemma_locked_keys(start, keys, n);
                }
                return false;
            }
        }
        proof {
            self.lemma_locked_keys(start, keys, n);
        }
        true
    }

    /// What holds of the locked addresses when the first `n` keys of the
    /// write set, in the order `keys` of its traversal, were put behind the
    /// addresses `start`: the new ones are keys of the write set, no two of
    /// them are the same, and after the whole traversal every key is among them.
    proof fn lemma_locked_keys(self, start: Seq<usize>, keys: Seq<(&usize, &[u8; 8])>, n: int)
        requires
            keys == vstd::std_specs::hash::spec_hash_map_iter(&self.write_set).remaining(),
            keys.no_duplicates(),
            0 <= n <= keys.len(),
            self.locked@.len() == start.len() + n,
            forall|j: int| 0 <= j < start.len() ==> self.locked@[j] == start[j],
            forall|j: int| 0 <= j < n ==> self.locked@[start.len() + j] == *(#[trigger] keys[j]).0,
        ensures
            start.is_prefix_of(self.locked@),
            keys.len() == self.write_set@.dom().len(),
            forall|i: int|
                start.len() <= i < self.locked@.len() ==> self.write_set@.contains_key(
                    #[trigger] self.locked@[i],
                ),
            forall|i: int, j: int|
                start.len() <= i < j < self.locked@.len() ==> self.locked@[i] != self.locked@[j],
            n == keys.len() ==> forall|a: usize| #[trigger]
                self.write_set@.contains_key(a) ==> self.locked@.contains(a),
    {
        assert(start =~= self.locked@.subrange(0, start.len() as int));
        assert forall|i: int| start.len() <= i < self.locked@.len() implies self.write_set@.contains_key(
            #[trigger] self.locked@[i],
        ) by {
            let j = i - start.len();
            assert(self.locked@[start.len() + j] == *keys[j].0);
            assert(self.write_set@.contains_key(*keys[j].0));
        }
        assert forall|i: int, j: int|
            start.len() <= i < j < self.locked@.len() implies self.locked@[i] != self.locked@[j] by {
            let a = i - start.len();
            let b = j - start.len();
            assert(self.locked@[start.len() + a] == *keys[a].0);
            assert(self.locked@[start.len() + b] == *keys[b].0);
            assert(self.write_set@.contains_key(*keys[a].0));
            assert(self.write_set@.contains_key(*keys[b].0));
            if *keys[a].0 == *keys[b].0 {
                assert(self.write_set@[*keys[a].0] == *keys[a].1);
                assert(self.write_set@[*keys[b].0] == *keys[b].1);
                assert(keys[a] == keys[b]);
            }
        }
        if n == keys.len() {
            assert forall|a: usize| #[trigger] self.write_set@.contains_key(a) implies self.locked@.contains(
                a,
            ) by {
                assert(keys.contains((&a, &self.write_set@[a])));
                let j = choose|j: int| 0 <= j < keys.len() && keys[j] == (&a, &self.write_set@[a]);
                assert(self.locked@[start.len() + j] == *keys[j].0);
            }
        }
    }

    /// Tells whether every stripe that was read is still as the transaction
    /// saw it: not newer than the transaction, and not locked by another one.
    /// A stripe of the write set is locked by the transaction itself, so only
    /// its version is looked at. With nothing read, nothing can have changed.
    pub fn validate_read_set(&self) -> (r: bool)
        requires
            self.wf(),
        ensures
            self@.read_set.len() == 0 ==> r,
    {
        for addr in it: self.read_set.iter()
            invariant
                self.wf(),
                it.seq() == vstd::std_specs::hash::spec_hash_keys_iter(&self.read_set).remaining(),
        {
            assert(self@.read_set.contains(*addr));
            if self.write_set.contains_key(addr) {
                let ver = self.mem.get_addr_ver(*addr);
                if ver > self.read_ver {
                    return false;
                }
            } else if !self.mem.test_not_modify(*addr, self.read_ver) {
                return false;
            }
        }
        true
    }

    /// Writes every stripe of the write set to the memory, then gives each of
    /// them the version `ver`, which unlocks it. To be called with all of them
    /// locked.
    pub fn commit(&mut self, ver: u64)
        requires
            old(self).wf(),
        ensures
            final(self).wf(),
            final(self)@ == (WriteState {
                bytes: committed(old(self)@.bytes, old(self)@.write_set),
                locked: Seq::<usize>::empty(),
                ..old(self)@
            }),
    {
        let ghost writes = self.write_set@;
        let ghost start = self.mem@;
        let ghost mut done: Map<usize, [u8; 8]> = Map::empty();
        for kv in it: self.write_set.iter()
            invariant
                self.wf(),
                self@ == (WriteState { bytes: self@.bytes, ..old(self)@ }),
                writes == old(self)@.write_set,
                start == old(self)@.bytes,
                it.seq() == vstd::std_specs::hash::spec_hash_map_iter(&self.write_set).remaining(),
                self@.bytes == committed(start, done),
                forall|a: usize|
                    done.contains_key(a) <==> exists|j: int|
                        0 <= j < it.index() && *(#[trigger] it.seq()[j]).0 == a,
                forall|a: usize| #[trigger]
                    done.contains_key(a) ==> writes.contains_key(a) && done[a] == writes[a],
        {
            let addr = *kv.0;
            let ghost s0 = self@;
            assert(self.write_set@.contains_key(*it.seq()[it.index()].0));
            self.mem.write_stripe(addr, kv.1);
            proof {
                let earlier = done;
                done = done.insert(addr, *kv.1);
                lemma_commit_step(start, earlier, addr, *kv.1);
                assert(self@ == (WriteState { bytes: self@.bytes, ..s0 }));
            }
        }
        assert(done =~= writes);
        release_fence();
        for kv in it: self.write_set.iter()
            invariant
                self.wf(),
                self@ == (WriteState {
                    bytes: committed(old(self)@.bytes, old(self)@.write_set),
                    ..old(self)@
                }),
                it.seq() == vstd::std_specs::hash::spec_hash_map_iter(&self.write_set).remaining(),
        {
            let addr = *kv.0;
            assert(self@.write_set.contains_key(addr));
            let idx = self.mem.stripe_index(addr);
            self.mem.set_version(idx, ver);
        }
        self.locked.clear();
    }

    /// Unlocks every stripe that the transaction holds locked. To be called
    /// before a transaction that did not commit is given up.
    pub fn unlock_all(&mut self)
        requires
            old(self).wf(),
        ensures
            final(self).wf(),
            final(self)@ == (WriteState { locked: Seq::<usize>::empty(), ..old(self)@ }),
    {
        let mut i: usize = 0;
        while i < self.locked.len()
            invariant
                self.wf(),
                self@ == old(self)@,
                i <= self.locked@.len(),
            decreases self.locked@.len() - i,
        {
            let addr = self.locked[i];
            assert(stripe_start(self@.locked[i as int]));
            self.mem.unlock_addr(addr);
            i = i + 1;
        }
        self.locked.clear();
    }
}

/// Writing one more stripe of the write set gives what committing one more
/// stripe describes.
pub proof fn lemma_commit_step(bytes: Seq<u8>, done: Map<usize, [u8; 8]>, addr: usize, val: [u8; 8])
    requires
        bytes.len() == MEM_SIZE,
        stripe_start(addr),
        forall|a: usize| #[trigger] done.contains_key(a) ==> stripe_start(a),
    ensures
        written(committed(bytes, done), addr, val@) == committed(bytes, done.insert(addr, val)),
{
}

/// What the body of a transaction asks for.
pub enum STMResult<T> {
    /// Commit, with this result.
    Done(T),
    /// Run the transaction again.
    Retry,
    /// Give the transaction up.
    Abort,
}

/// How one run of a transaction ended.
pub enum Attempt<T> {
    /// The transaction is over: committed with a result, or given up.
    Finished(Option<T>),
    /// A conflict was seen: the transaction has to be run again.
    Again,
}

impl<'a> ReadTrans<'a> {
    /// Decides how a run ends that gave `result`. A run that saw a conflict
    /// is to be made again, unless its body gave the transaction up; a run
    /// without conflict commits its result, or is given up if its body asked
    /// for another run.
    pub fn conclude<T>(&self, result: STMResult<T>) -> (r: Attempt<T>)
        ensures
            r == match result {
                STMResult::Abort => Attempt::Finished(None),
                STMResult::Retry => if self.aborted() {
                    Attempt::Again
                } else {
                    Attempt::Finished(None)
                },
                STMResult::Done(val) => if self.aborted() {
                    Attempt::Again
                } else {
                    Attempt::Finished(Some(val))
                },
            },
    {
        match result {
            STMResult::Abort => Attempt::Finished(None),
            STMResult::Retry => {
                if self.is_abort {
                    Attempt::Again
                } else {
                    Attempt::Finished(None)
                }
            },
            STMResult::Done(val) => {
                if self.is_abort {
                    Attempt::Again
                } else {
                    Attempt::Finished(Some(val))
                }
            },
        }
    }
}

impl<'a> WriteTrans<'a> {
    /// Decides how a run ends that gave `result`, and commits it if it can.
    /// A run whose body gave a result and that saw no conflict locks its
    /// write set, moves the clock on, checks what it read unless no other
    /// transaction committed meanwhile, and writes. When a lock is not to be
    /// had or the check fails, the run is to be made again and the memory is
    /// left as it was. Either way no stripe stays locked.
    pub fn conclude<T>(&mut self, result: STMResult<T>) -> (r: Attempt<T>)
        requires
            old(self).wf(),
        ensures
            final(self).wf(),
            final(self)@ == (WriteState {
                bytes: final(self)@.bytes,
                locked: Seq::<usize>::empty(),
                ..old(self)@
            }),
            result is Abort ==> r == Attempt::<T>::Finished(None),
            result is Retry ==> r == if old(self)@.is_abort {
                Attempt::<T>::Again
            } else {
                Attempt::<T>::Finished(None)
            },
            result is Done && old(self)@.is_abort ==> r == Attempt::<T>::Again,
            result is Done ==> r == Attempt::<T>::Again || r == Attempt::Finished(
                Some(result->Done_0),
            ),
            final(self)@.bytes == if r is Finished && r->Finished_0 is Some {
                committed(old(self)@.bytes, old(self)@.write_set)
            } else {
                old(self)@.bytes
            },
    {
        let val = match result {
            STMResult::Abort => {
                self.unlock_all();
                return Attempt::Finished(None);
            },
            STMResult::Retry => {
                self.unlock_all();
                if self.is_abort {
                    return Attempt::Again;
                }
                return Attempt::Finished(None);
            },
            STMResult::Done(val) => {
                if self.is_abort {
                    self.unlock_all();
                    return Attempt::Again;
                }
                val
            },
        };
        if !self.lock_write_set() {
            self.unlock_all();
            return Attempt::Again;
        }
        let ver = self.mem.inc_global_clock().wrapping_add(1);
        if self.read_ver.wrapping_add(1) != ver && !self.validate_read_set() {
            self.unlock_all();
            return Attempt::Again;
        }
        self.commit(ver);
        Attempt::Finished(Some(val))
    }
}

/// A software transactional memory.
pub struct STM {
    mem: Memory,
}

impl View for STM {
    type V = Seq<u8>;

    /// The bytes of the memory.
    closed spec fn view(&self) -> Seq<u8> {
        self.mem@
    }
}

impl STM {
    /// The memory is well formed.
    pub closed spec fn wf(self) -> bool {
        self.mem.wf()
    }

    /// A transactional memory of zeros.
    pub fn new() -> (stm: Self)
        ensures
            stm.wf(),
            stm@ == Seq::new(MEM_SIZE as nat, |i: int| 0u8),
    {
        STM { mem: Memory::new() }
    }

    /// Begins a transaction that only reads.
    pub fn begin_read(&self) -> (tr: ReadTrans<'_>)
        requires
            self.wf(),
        ensures
            tr.wf(),
            !tr.aborted(),
            tr.bytes() == self@,
    {
        ReadTrans::new(&self.mem)
    }

    /// Begins a transaction that reads and writes.
    pub fn begin_write(&mut self) -> (tr: WriteTrans<'_>)
        requires
            old(self).wf(),
        ensures
            tr.wf(),
            tr@.read_set == Set::<usize>::empty(),
            tr@.write_set == Map::<usize, [u8; 8]>::empty(),
            tr@.locked == Seq::<usize>::empty(),
            !tr@.is_abort,
            tr@.bytes == old(self)@,
    {
        WriteTrans::new(&mut self.mem)
    }
}

} // verus!
