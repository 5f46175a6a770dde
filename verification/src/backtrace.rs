//! Walking the chain of frame pointers of the running kernel stack.

use vstd::prelude::*;

verus! {

/// Where the kernel stacks of processes lie: one slot per process, a guard
/// page then the stack.
pub const KERNEL_PROC_STACK_BASE: u64 = 0xffff_8000_0000_0000u64;
pub const KERNEL_PROC_STACK_SIZE: u64 = 0x8000u64;
pub const KERNEL_PROC_STACK_GUARD_SIZE: u64 = 0x1000u64;
pub const KERNEL_PROC_STACK_SLOT_SIZE: u64 = 0x9000u64;

/// A frame as it lies on the stack: the caller's frame pointer and the
/// return address.
#[derive(Clone, Copy, Debug)]
pub struct StackFrame {
    pub previous_rbp: u64,
    pub return_address: u64,
}

/// A backtrace: the frame pointer it starts from and the stack it must stay in.
pub struct Backtrace {
    pub rbp: u64,
    pub stack_bounds: Option<(u64, u64)>,
}

/// The walk along a backtrace.
pub struct BacktraceIter {
    pub current_rbp: u64,
    pub stack_bounds: Option<(u64, u64)>,
}

/// A frame pointer that cannot be followed: null, misaligned, or outside
/// the known stack.
pub open spec fn rbp_invalid(rbp: u64, bounds: Option<(u64, u64)>) -> bool {
    rbp == 0 || rbp % 8 != 0 || match bounds {
        Some((s, e)) => !(s <= rbp < e),
        None => false,
    }
}

pub fn is_rbp_invalid(backtrace_iter: &BacktraceIter) -> (r: bool)
    ensures
        r == rbp_invalid(backtrace_iter.current_rbp, backtrace_iter.stack_bounds),
{
    let address = backtrace_iter.current_rbp;
    if address == 0 || address % 8 != 0 {
        return true;
    }
    match backtrace_iter.stack_bounds {
        Some((s, e)) => !(s <= address && address < e),
        None => false,
    }
}

/// The stack of the process whose kernel stack holds `rsp`, if it lies in a
/// process stack (its guard page excluded).
pub open spec fn stack_bounds_of(rsp: u64) -> Option<(u64, u64)> {
    if rsp < KERNEL_PROC_STACK_BASE {
        None
    } else {
        let slot = (rsp - KERNEL_PROC_STACK_BASE) / KERNEL_PROC_STACK_SLOT_SIZE as int;
        let start = KERNEL_PROC_STACK_BASE + slot * KERNEL_PROC_STACK_SLOT_SIZE + KERNEL_PROC_STACK_GUARD_SIZE;
        let end = start + KERNEL_PROC_STACK_SIZE;
        if rsp < start || rsp > end || end > u64::MAX {
            None
        } else {
            Some((start as u64, end as u64))
        }
    }
}

pub fn current_process_stack_bounds(rsp: u64) -> (r: Option<(u64, u64)>)
    ensures
        r == stack_bounds_of(rsp),
{
    let base = KERNEL_PROC_STACK_BASE;
    if rsp < base {
        return None;
    }
    let slot_idx = (rsp - base) / KERNEL_PROC_STACK_SLOT_SIZE;
    assert(slot_idx * KERNEL_PROC_STACK_SLOT_SIZE <= rsp - base) by (nonlinear_arith)
        requires
            slot_idx == (rsp - base) / KERNEL_PROC_STACK_SLOT_SIZE as int,
            rsp >= base,
    ;
    let slot_start = base + slot_idx * KERNEL_PROC_STACK_SLOT_SIZE;
    if slot_start > u64::MAX - KERNEL_PROC_STACK_GUARD_SIZE - KERNEL_PROC_STACK_SIZE {
        return None;
    }
    let stack_start = slot_start + KERNEL_PROC_STACK_GUARD_SIZE;
    let stack_end = stack_start + KERNEL_PROC_STACK_SIZE;
    if rsp < stack_start || rsp > stack_end {
        return None;
    }
    Some((stack_start, stack_end))
}

/// The kernel stack of the process in slot `idx`: the first byte above its
/// guard page, and its top.
pub open spec fn kernel_stack_of(idx: int) -> (int, int) {
    let start = KERNEL_PROC_STACK_BASE + idx * KERNEL_PROC_STACK_SLOT_SIZE + KERNEL_PROC_STACK_GUARD_SIZE;
    (start, start + KERNEL_PROC_STACK_SIZE)
}

/// Where the kernel stack of the process in slot `idx` lies; the stack is
/// used from its top down.
pub fn kernel_stack_range(idx: u32) -> (r: (u64, u64))
    requires
        KERNEL_PROC_STACK_BASE + (idx + 1) * KERNEL_PROC_STACK_SLOT_SIZE <= u64::MAX,
    ensures
        r.0 == kernel_stack_of(idx as int).0,
        r.1 == kernel_stack_of(idx as int).1,
{
    let slot_start = KERNEL_PROC_STACK_BASE + idx as u64 * KERNEL_PROC_STACK_SLOT_SIZE;
    let start = slot_start + KERNEL_PROC_STACK_GUARD_SIZE;
    (start, start + KERNEL_PROC_STACK_SIZE)
}

/// A stack pointer inside the kernel stack of a process finds that stack
/// back: the bounds a backtrace uses are the stack that was set up.
pub proof fn lemma_stack_bounds_find_slot(idx: int, rsp: u64)
    requires
        0 <= idx,
        KERNEL_PROC_STACK_BASE + (idx + 1) * KERNEL_PROC_STACK_SLOT_SIZE <= u64::MAX,
        kernel_stack_of(idx).0 <= rsp < kernel_stack_of(idx).1,
    ensures
        stack_bounds_of(rsp) == Some((kernel_stack_of(idx).0 as u64, kernel_stack_of(idx).1 as u64)),
{
    let d = rsp - KERNEL_PROC_STACK_BASE;
    assert(idx * 0x9000 <= d < (idx + 1) * 0x9000);
    assert(d / 0x9000 == idx) by (nonlinear_arith)
        requires
            idx * 0x9000 <= d < (idx + 1) * 0x9000,
            0 <= idx,
    ;
}

impl Backtrace {
    /// The backtrace from frame pointer `rbp`, with stack pointer `rsp`.
    pub fn new(rbp: u64, rsp: u64) -> (r: Backtrace)
        ensures
            r.rbp == rbp,
            r.stack_bounds == stack_bounds_of(rsp),
    {
        Backtrace { rbp, stack_bounds: current_process_stack_bounds(rsp) }
    }

    pub fn iter(&self) -> (r: BacktraceIter)
        ensures
            r.current_rbp == self.rbp,
            r.stack_bounds == self.stack_bounds,
    {
        BacktraceIter { current_rbp: self.rbp, stack_bounds: self.stack_bounds }
    }
}

impl BacktraceIter {
    /// Whether the walk has a next frame to read at `current_rbp`.
    pub fn has_next(&self) -> (r: bool)
        ensures
            r == !rbp_invalid(self.current_rbp, self.stack_bounds),
    {
        !is_rbp_invalid(self)
    }

    /// Moves to the caller of the frame read at `current_rbp`, giving the
    /// return address it holds.
    pub fn advance(&mut self, frame: StackFrame) -> (r: u64)
        ensures
            r == frame.return_address,
            final(self).current_rbp == frame.previous_rbp,
            final(self).stack_bounds == old(self).stack_bounds,
    {
        self.current_rbp = frame.previous_rbp;
        frame.return_address
    }
}

} // verus!
