//! Threads and the memory they run on: stacks, saved registers and the
//! record that the runtime keeps of a thread.

use vstd::prelude::*;

verus! {

/// Size of one page of memory in bytes. Stacks are aligned to it, and the
/// lowest page of every stack is the guard page.
pub const PAGE_SIZE: usize = 4096;

/// The memory block that one logical thread runs on: `size` bytes starting at
/// the address `base`. The block is only described here; allocating it,
/// protecting its guard page and freeing it are the embedding program's job.
#[derive(Clone, Copy, Debug, PartialEq, Eq, Structural)]
pub struct StackRegion {
    pub base: u64,
    pub size: usize,
}

impl StackRegion {
    /// A usable stack: a real block (not at address 0), aligned to the page
    /// size, with room for the guard page and at least one byte above it, and
    /// ending inside the address space.
    pub open spec fn wf(self) -> bool {
        &&& self.base != 0
        &&& self.base as int % PAGE_SIZE as int == 0
        &&& self.size > PAGE_SIZE
        &&& self.base + self.size <= u64::MAX
    }

    /// The address just above the block, where a downward-growing stack starts.
    pub open spec fn top(self) -> int {
        self.base + self.size
    }

    /// The first address above the guard page.
    pub open spec fn guard_end(self) -> int {
        self.base + PAGE_SIZE
    }

    /// The two blocks share no byte.
    pub open spec fn disjoint(self, other: StackRegion) -> bool {
        self.top() <= other.base || other.top() <= self.base
    }

    /// A stack pointer `sp` lies in the part of this block that a thread may
    /// use: above the guard page and at most at the top.
    pub open spec fn holds(self, sp: u64) -> bool {
        self.guard_end() <= sp <= self.top()
    }

    /// Describes the block of `size` bytes at `base`, if that is a usable stack.
    pub fn new(base: u64, size: usize) -> (r: Option<StackRegion>)
        ensures
            r is Some <==> (StackRegion { base, size }).wf(),
            r is Some ==> r->0 == (StackRegion { base, size }),
    {
        if base == 0 || base % (PAGE_SIZE as u64) != 0 || size <= PAGE_SIZE {
            return None;
        }
        if size as u64 > u64::MAX - base {
            return None;
        }
        Some(StackRegion { base, size })
    }

    /// Tells whether the two blocks share no byte.
    pub fn is_disjoint(&self, other: &StackRegion) -> (r: bool)
        requires
            self.wf(),
            other.wf(),
        ensures
            r == self.disjoint(*other),
    {
        self.base + (self.size as u64) <= other.base || other.base + (other.size as u64)
            <= self.base
    }
}

/// The saved state of a CPU: the callee-saved registers, the link register
/// `x30` that execution continues at, and the stack pointer.
#[derive(Clone, Copy, Debug, PartialEq, Eq, Structural)]
pub struct Registers {
    pub d8: u64,
    pub d9: u64,
    pub d10: u64,
    pub d11: u64,
    pub d12: u64,
    pub d13: u64,
    pub d14: u64,
    pub d15: u64,
    pub x19: u64,
    pub x20: u64,
    pub x21: u64,
    pub x22: u64,
    pub x23: u64,
    pub x24: u64,
    pub x25: u64,
    pub x26: u64,
    pub x27: u64,
    pub x28: u64,
    pub x30: u64,
    pub sp: u64,
}

impl Registers {
    /// The register image that starts execution at `entry_point` on a stack
    /// whose top is `sp`: every callee-saved register is zero.
    pub open spec fn initial(sp: u64, entry_point: u64) -> Registers {
        Registers {
            d8: 0,
            d9: 0,
            d10: 0,
            d11: 0,
            d12: 0,
            d13: 0,
            d14: 0,
            d15: 0,
            x19: 0,
            x20: 0,
            x21: 0,
            x22: 0,
            x23: 0,
            x24: 0,
            x25: 0,
            x26: 0,
            x27: 0,
            x28: 0,
            x30: entry_point,
            sp,
        }
    }

    /// Builds the image that makes a context switch jump to `entry_point`
    /// with the stack pointer at `sp`.
    pub fn new(sp: u64, entry_point: u64) -> (r: Registers)
        ensures
            r == Registers::initial(sp, entry_point),
    {
        Registers {
            d8: 0,
            d9: 0,
            d10: 0,
            d11: 0,
            d12: 0,
            d13: 0,
            d14: 0,
            d15: 0,
            x19: 0,
            x20: 0,
            x21: 0,
            x22: 0,
            x23: 0,
            x24: 0,
            x25: 0,
            x26: 0,
            x27: 0,
            x28: 0,
            x30: entry_point,
            sp,
        }
    }
}

/// A logical thread: its identifier, its register image, the stack it owns
/// and the function it runs.
pub struct Context<E> {
    pub regs: Registers,
    pub stack: StackRegion,
    pub entry: E,
    pub id: u64,
}

impl<E> Context<E> {
    /// The thread owns a usable stack and its stack pointer lies in it.
    pub open spec fn wf(self) -> bool {
        &&& self.stack.wf()
        &&& self.stack.holds(self.regs.sp)
    }

    /// The thread that `new` makes from these parts.
    pub open spec fn fresh(func: E, stack: StackRegion, id: u64, entry_point: u64) -> Context<E> {
        Context {
            regs: Registers::initial((stack.base + stack.size) as u64, entry_point),
            stack,
            entry: func,
            id,
        }
    }

    /// Makes the thread `id` that will run `func` on `stack`: its first
    /// context switch jumps to `entry_point` with the stack pointer at the top
    /// of the stack.
    pub fn new(func: E, stack: StackRegion, id: u64, entry_point: u64) -> (r: Context<E>)
        requires
            stack.wf(),
        ensures
            r == Context::fresh(func, stack, id, entry_point),
            r.wf(),
    {
        let regs = Registers::new(stack.base + (stack.size as u64), entry_point);
        Context { regs, stack, entry: func, id }
    }

    /// The saved registers of the thread.
    pub fn get_regs(&self) -> (r: &Registers)
        ensures
            *r == self.regs,
    {
        &self.regs
    }

    /// The saved registers of the thread, to be written.
    pub fn get_regs_mut(&mut self) -> (r: &mut Registers)
        ensures
            *r == old(self).regs,
            *final(self) == (Context { regs: *final(r), ..*old(self) }),
    {
        &mut self.regs
    }
}

} // verus!
