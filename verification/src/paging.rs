//! Virtual memory: page table indices, the memory manager, and the
//! allocation of address space for device registers.

use vstd::prelude::*;
use crate::frame_alloc::BitMapFrameAllocator;

verus! {

/// The index into the top-level page table of the virtual address `addr`:
/// bits 39 to 47.
pub fn pml4_index(addr: u64) -> (r: usize)
    ensures
        r == (addr / 0x80_0000_0000) % 512,
{
    assert((addr >> 39u64) & 0x1ffu64 == (addr / 0x80_0000_0000u64) % 512) by (bit_vector);
    ((addr >> 39u64) & 0x1ffu64) as usize
}

/// What manages physical memory after boot.
pub struct MemoryManager {
    pub frame_allocator: BitMapFrameAllocator,
}

/// The virtual range set aside for device registers.
pub const MMIO_START: u64 = 0xffff_a000_0000_0000u64;
pub const MMIO_END: u64 = 0xffff_a100_0000_0000u64;

/// The next free address of the device register range.
pub struct MmioSpace {
    next: u64,
}

impl MmioSpace {
    pub closed spec fn next(&self) -> u64 {
        self.next
    }

    pub fn new() -> (r: MmioSpace)
        ensures
            r.next() == MMIO_START,
    {
        MmioSpace { next: MMIO_START }
    }

    /// Sets aside `pages_count` pages of the range: their first address, or
    /// none when they do not fit before its end.
    pub fn alloc_virtual_pages(&mut self, pages_count: u64) -> (r: Option<u64>)
        requires
            old(self).next() <= MMIO_END,
        ensures
            final(self).next() <= MMIO_END,
            pages_count * 4096 > MMIO_END - old(self).next() ==> r is None && final(self).next() == old(self).next(),
            pages_count * 4096 <= MMIO_END - old(self).next() ==> r == Some(old(self).next()) && final(self).next()
                == old(self).next() + pages_count * 4096,
    {
        let pages_size = match pages_count.checked_mul(4096) {
            Some(s) => s,
            None => return None,
        };
        if pages_size > MMIO_END - self.next {
            return None;
        }
        let n = self.next;
        self.next = n + pages_size;
        Some(n)
    }
}

} // verus!
