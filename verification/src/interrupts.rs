//! Interrupt numbers and the timer tick.

use vstd::prelude::*;

verus! {

/// The first vector the legacy interrupt controller delivers on.
pub const PIC_1_OFFSET: u8 = 32u8;

/// The interrupts the kernel handles besides exceptions.
#[derive(Clone, Copy, Debug, PartialEq, Eq, Structural)]
pub enum InterruptIndex {
    Timer,
    Keyboard,
    Ahci,
    Spurious,
}

/// The vector of an interrupt.
pub open spec fn vector_spec(i: InterruptIndex) -> u8 {
    match i {
        InterruptIndex::Timer => PIC_1_OFFSET,
        InterruptIndex::Keyboard => (PIC_1_OFFSET + 1) as u8,
        InterruptIndex::Ahci => (PIC_1_OFFSET + 2) as u8,
        InterruptIndex::Spurious => 0xFFu8,
    }
}

pub fn interrupt_vector(i: InterruptIndex) -> (r: u8)
    ensures
        r == vector_spec(i),
{
    match i {
        InterruptIndex::Timer => PIC_1_OFFSET,
        InterruptIndex::Keyboard => PIC_1_OFFSET + 1,
        InterruptIndex::Ahci => PIC_1_OFFSET + 2,
        InterruptIndex::Spurious => 0xFFu8,
    }
}

/// Whether an interrupted code segment is user code: privilege level 3.
pub fn is_from_userspace(cs: u64) -> (r: bool)
    ensures
        r == (cs % 4 == 3),
{
    assert(cs & 3u64 == cs % 4) by (bit_vector);
    (cs & 3u64) == 3
}

/// Timer interrupts between two reschedules.
pub const TICKS_EACH_SCHEDULE: u64 = 1u64;

/// The count of timer interrupts since boot.
pub struct Ticks {
    count: u64,
}

impl Ticks {
    pub closed spec fn value(&self) -> u64 {
        self.count
    }

    pub fn new() -> (r: Ticks)
        ensures
            r.value() == 0,
    {
        Ticks { count: 0 }
    }

    pub fn ticks(&self) -> (r: u64)
        ensures
            r == self.value(),
    {
        self.count
    }

    /// Counts a timer interrupt and says whether to reschedule: on every
    /// `TICKS_EACH_SCHEDULE`-th tick, when user code was interrupted.
    pub fn timer_tick(&mut self, cs: u64) -> (r: bool)
        ensures
            final(self).value() == old(self).value().wrapping_add(1),
            r == (final(self).value() % TICKS_EACH_SCHEDULE == 0 && cs % 4 == 3),
    {
        self.count = self.count.wrapping_add(1);
        self.count % TICKS_EACH_SCHEDULE == 0 && is_from_userspace(cs)
    }
}

/// What caused a page fault, from its error code.
#[derive(Clone, Copy, Debug, PartialEq, Eq, Structural)]
pub enum ErrorCause {
    Read,
    Write,
    Execute,
}

pub const PF_PROTECTION_VIOLATION: u64 = 1u64;
pub const PF_CAUSED_BY_WRITE: u64 = 2u64;
pub const PF_INSTRUCTION_FETCH: u64 = 0x10u64;

/// Whether the faulting page was present, and what the access was.
pub fn fault_cause(error_code: u64) -> (r: (bool, ErrorCause))
    ensures
        r.0 == (error_code & PF_PROTECTION_VIOLATION != 0),
        r.1 == if error_code & PF_CAUSED_BY_WRITE != 0 {
            ErrorCause::Write
        } else if error_code & PF_INSTRUCTION_FETCH != 0 {
            ErrorCause::Execute
        } else {
            ErrorCause::Read
        },
{
    let present = error_code & PF_PROTECTION_VIOLATION != 0;
    let cause = if error_code & PF_CAUSED_BY_WRITE != 0 {
        ErrorCause::Write
    } else if error_code & PF_INSTRUCTION_FETCH != 0 {
        ErrorCause::Execute
    } else {
        ErrorCause::Read
    };
    (present, cause)
}

/// The exit code of a process killed by a page fault.
pub const SEGFAULT_EXIT_CODE: i32 = 139i32;

/// What a user page fault did, as reported: the access and whether the page
/// was mapped but protected.
pub fn fault_description(present: bool, cause: ErrorCause) -> (r: &'static str)
    ensures
        present && cause == ErrorCause::Read ==> r@ == "read from protected memory at "@,
        present && cause == ErrorCause::Write ==> r@ == "write to protected memory at "@,
        present && cause == ErrorCause::Execute ==> r@ == "execution of protected memory at "@,
        !present && cause == ErrorCause::Read ==> r@ == "read from unmapped memory at "@,
        !present && cause == ErrorCause::Write ==> r@ == "write to unmapped memory at "@,
        !present && cause == ErrorCause::Execute ==> r@ == "execution of unmapped memory at "@,
{
    match (present, cause) {
        (true, ErrorCause::Read) => "read from protected memory at ",
        (true, ErrorCause::Write) => "write to protected memory at ",
        (true, ErrorCause::Execute) => "execution of protected memory at ",
        (false, ErrorCause::Read) => "read from unmapped memory at ",
        (false, ErrorCause::Write) => "write to unmapped memory at ",
        (false, ErrorCause::Execute) => "execution of unmapped memory at ",
    }
}

} // verus!
