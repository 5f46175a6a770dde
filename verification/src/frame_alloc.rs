//! Physical frame allocation: the bitmap allocator the kernel runs on and the
//! bump allocator that serves frames from the boot memory map before it.

use vstd::prelude::*;
use vstd::arithmetic::div_mod::{lemma_fundamental_div_mod, lemma_mod_multiples_basic};
use crate::align::{is_power_of_two, is_pow2, round_up, lemma_round_up, lemma_round_up_least, lemma_pow2_bound, round_down, lemma_round_down};

verus! {

/// Size of a physical frame, in bytes.
pub const FRAME_SIZE: u64 = 4096u64;

/// Number of 4 KiB frames in the 512 GiB physical-memory window the kernel maps.
pub const MAX_FRAMES: usize = 0x800_0000usize;

/// Bit `b` of the word `w`.
pub open spec fn word_bit(w: u64, b: int) -> bool {
    w & (1u64 << (b as u64)) != 0
}

/// No frame in `[c, c + n)` is in use.
pub open spec fn run_free(used: Seq<bool>, c: int, n: int) -> bool {
    forall|j: int| c <= j < c + n ==> !#[trigger] used[j]
}

/// A run of `n` free frames can start at `c` inside `[start, end)` with the alignment `a`.
pub open spec fn fits(used: Seq<bool>, c: int, n: int, start: int, end: int, a: int) -> bool {
    &&& c % a == 0
    &&& start <= c
    &&& c + n <= end
    &&& run_free(used, c, n)
}

/// The search parameters that the allocator accepts.
pub open spec fn search_ok(start: int, end: int, n: int, a: u64) -> bool {
    n != 0 && is_pow2(a) && start < end
}

/// `r` is the answer of a first-fit search over `[start, end)`.
pub open spec fn first_fit(used: Seq<bool>, start: int, end: int, n: int, a: u64, r: Option<usize>) -> bool {
    match r {
        None => !search_ok(start, end, n, a) || forall|c: int| !#[trigger] fits(used, c, n, start, end, a as int),
        Some(c) => {
            &&& search_ok(start, end, n, a)
            &&& fits(used, c as int, n, start, end, a as int)
            &&& forall|c2: int| #[trigger] fits(used, c2, n, start, end, a as int) ==> c <= c2
        },
    }
}

/// `s` with the frames in `[lo, hi)` set to `v`.
pub open spec fn set_range(s: Seq<bool>, lo: int, hi: int, v: bool) -> Seq<bool> {
    Seq::new(s.len(), |i: int| if lo <= i < hi { v } else { s[i] })
}

/// `r` is the answer of a search that starts at the hint and, finding nothing,
/// searches again below the hint.
pub open spec fn first_fit_from_hint(used: Seq<bool>, hint: int, n: int, a: u64, r: Option<usize>) -> bool {
    match r {
        Some(c) => first_fit(used, hint, used.len() as int, n, a, Some(c)) || (first_fit(
            used,
            hint,
            used.len() as int,
            n,
            a,
            None,
        ) && first_fit(used, 0, hint, n, a, Some(c))),
        None => first_fit(used, hint, used.len() as int, n, a, None) && first_fit(used, 0, hint, n, a, None),
    }
}

/// A first-fit answer names a run of free frames inside the map.
pub proof fn lemma_first_fit_hint_free(used: Seq<bool>, hint: int, n: int, a: u64, c: usize)
    requires
        0 <= hint <= used.len(),
        first_fit_from_hint(used, hint, n, a, Some(c)),
    ensures
        run_free(used, c as int, n),
        n != 0,
        c + n <= used.len(),
{
}

/// Giving back frames that an allocation took restores the map as it was:
/// the frames were free before and are free again, the others never changed.
pub proof fn lemma_alloc_then_free_restores(used: Seq<bool>, c: int, n: int)
    requires
        run_free(used, c, n),
        0 <= c,
        c + n <= used.len(),
    ensures
        set_range(set_range(used, c, c + n, true), c, c + n, false) == used,
{
    assert(set_range(set_range(used, c, c + n, true), c, c + n, false) =~= used) by {
        assert forall|j: int| 0 <= j < used.len() implies set_range(set_range(used, c, c + n, true), c, c + n, false)[j]
            == used[j] by {
            if c <= j < c + n {
                assert(!used[j]);
            }
        }
    }
}

/// Two allocations never share a frame: once a run is marked in use, a later
/// allocation (which takes only free frames) lies outside it.
pub proof fn lemma_allocations_disjoint(used: Seq<bool>, c1: int, n1: int, c2: int, n2: int)
    requires
        0 <= c1,
        c1 + n1 <= used.len(),
        0 <= c2,
        c2 + n2 <= used.len(),
        run_free(set_range(used, c1, c1 + n1, true), c2, n2),
    ensures
        c2 + n2 <= c1 || c1 + n1 <= c2 || n1 <= 0 || n2 <= 0,
{
    if !(c2 + n2 <= c1 || c1 + n1 <= c2 || n1 <= 0 || n2 <= 0) {
        let j = if c1 <= c2 { c2 } else { c1 };
        assert(set_range(used, c1, c1 + n1, true)[j]);
    }
}

proof fn lemma_bit_ops(w: u64, b: u64, j: u64)
    requires
        b < 64,
        j < 64,
    ensures
        ((w | (1u64 << b)) & (1u64 << j) != 0) == (j == b || w & (1u64 << j) != 0),
        ((w & !(1u64 << b)) & (1u64 << j) != 0) == (j != b && w & (1u64 << j) != 0),
{
    assert(((w | (1u64 << b)) & (1u64 << j) != 0) == (j == b || w & (1u64 << j) != 0)) by (bit_vector)
        requires
            b < 64,
            j < 64;
    assert(((w & !(1u64 << b)) & (1u64 << j) != 0) == (j != b && w & (1u64 << j) != 0)) by (bit_vector)
        requires
            b < 64,
            j < 64;
}

/// Tracks which physical frames are in use, one bit per 4 KiB frame.
pub struct BitMapFrameAllocator {
    bitmap: Vec<u64>,
    frame_count: usize,
    next_hint: usize,
}

impl View for BitMapFrameAllocator {
    type V = Seq<bool>;

    /// Frame `i` is in use.
    closed spec fn view(&self) -> Seq<bool> {
        Seq::new(self.frame_count as nat, |i: int| word_bit(self.bitmap@[i / 64], i % 64))
    }
}

impl BitMapFrameAllocator {
    pub closed spec fn wf(&self) -> bool {
        &&& self.frame_count <= MAX_FRAMES
        &&& self.frame_count <= self.bitmap@.len() * 64
        &&& self.next_hint <= self.frame_count
    }

    /// Where the next search starts.
    pub closed spec fn hint(&self) -> int {
        self.next_hint as int
    }

    /// The next search never starts past the last frame.
    pub proof fn lemma_hint_in_range(&self)
        requires
            self.wf(),
        ensures
            0 <= self.hint() <= self@.len(),
    {
    }

    pub fn frame_count(&self) -> (r: usize)
        ensures
            r == self@.len(),
    {
        self.frame_count
    }

    pub fn next_hint(&self) -> (r: usize)
        ensures
            r == self.hint(),
    {
        self.next_hint
    }

    /// Whether frame `frame_idx` is in use.
    pub fn is_frame_used(&self, frame_idx: usize) -> (r: bool)
        requires
            self.wf(),
            frame_idx < self@.len(),
        ensures
            r == self@[frame_idx as int],
    {
        let word_idx = frame_idx / 64;
        let bit_idx = frame_idx % 64;
        self.bitmap[word_idx] & (1u64 << (bit_idx as u64)) != 0
    }

    /// Marks frame `frame_idx` as used or free.
    pub fn set_is_used(&mut self, frame_idx: usize, used: bool)
        requires
            old(self).wf(),
            frame_idx < old(self)@.len(),
        ensures
            final(self).wf(),
            final(self)@ == old(self)@.update(frame_idx as int, used),
            final(self).hint() == old(self).hint(),
    {
        let word_idx = frame_idx / 64;
        let bit_idx = frame_idx % 64;
        let mask = 1u64 << (bit_idx as u64);
        let w = self.bitmap[word_idx];
        let ghost old_self = *self;
        if used {
            self.bitmap.set(word_idx, w | mask);
        } else {
            self.bitmap.set(word_idx, w & !mask);
        }
        proof {
            assert forall|i: int| 0 <= i < self.frame_count implies #[trigger] self@[i] == old_self@.update(
                frame_idx as int,
                used,
            )[i] by {
                if i / 64 == word_idx as int {
                    lemma_bit_ops(w, bit_idx as u64, (i % 64) as u64);
                }
            }
            assert(self@ =~= old_self@.update(frame_idx as int, used));
        }
    }

    /// The first frame in use inside `[lo, hi)`, if any.
    fn first_used_in(&self, lo: usize, hi: usize) -> (r: Option<usize>)
        requires
            self.wf(),
            lo <= hi <= self@.len(),
        ensures
            match r {
                None => run_free(self@, lo as int, hi - lo),
                Some(u) => lo <= u < hi && self@[u as int] && run_free(self@, lo as int, u - lo),
            },
    {
        let mut j = lo;
        while j < hi
            invariant
                self.wf(),
                lo <= j <= hi <= self@.len(),
                run_free(self@, lo as int, j - lo),
            decreases hi - j,
        {
            if self.is_frame_used(j) {
                return Some(j);
            }
            j = j + 1;
        }
        None
    }

    /// First-fit search for `page_nb` free frames aligned to `alignement` frames
    /// inside `[start_idx, end_idx)`.
    pub fn find_free_in_contiguous(&self, start_idx: usize, end_idx: usize, page_nb: usize, alignement: usize) -> (r: Option<usize>)
        requires
            self.wf(),
            end_idx <= self@.len(),
        ensures
            first_fit(self@, start_idx as int, end_idx as int, page_nb as int, alignement as u64, r),
    {
        if page_nb == 0 || alignement == 0 || !is_power_of_two(alignement as u64) || start_idx >= end_idx {
            return None;
        }
        let ghost a = alignement as int;
        let ghost n = page_nb as int;
        proof {
            lemma_pow2_bound(alignement as u64);
            lemma_round_up(start_idx as int, a);
            assert forall|c: int| #[trigger] fits(self@, c, n, start_idx as int, end_idx as int, a) implies c >= round_up(start_idx as int, a) by {
                lemma_round_up_least(start_idx as int, a, c);
            }
        }
        let mut candidate: u64 = x86_64::align_up(start_idx as u64, alignement as u64);
        loop
            invariant
                self.wf(),
                end_idx <= self@.len() <= MAX_FRAMES,
                search_ok(start_idx as int, end_idx as int, n, alignement as u64),
                a == alignement,
                n == page_nb,
                1 <= a <= 0x8000_0000_0000_0000u64,
                candidate as int % a == 0,
                candidate >= start_idx,
                forall|c: int| #[trigger] fits(self@, c, n, start_idx as int, end_idx as int, a) ==> c >= candidate,
            decreases u64::MAX - candidate,
        {
            let candidate_end = match candidate.checked_add(page_nb as u64) {
                Some(e) => e,
                None => return None,
            };
            if candidate_end > end_idx as u64 {
                return None;
            }
            match self.first_used_in(candidate as usize, candidate_end as usize) {
                None => {
                    return Some(candidate as usize);
                },
                Some(used_idx) => {
                    let next = used_idx + 1;
                    proof {
                        lemma_round_up(next as int, a);
                        assert forall|c: int| #[trigger] fits(self@, c, n, start_idx as int, end_idx as int, a) implies c >= round_up(next as int, a) by {
                            if c < round_up(next as int, a) {
                                if c >= next {
                                    lemma_round_up_least(next as int, a, c);
                                }
                                assert(self@[used_idx as int]);
                            }
                        }
                    }
                    candidate = x86_64::align_up(next as u64, alignement as u64);
                },
            }
        }
    }

    /// First-fit search that starts at the hint and wraps around to the frames below it.
    pub fn find_first_free_contiguous(&self, page_nb: usize, alignement: usize) -> (r: Option<usize>)
        requires
            self.wf(),
        ensures
            first_fit_from_hint(self@, self.hint(), page_nb as int, alignement as u64, r),
    {
        match self.find_free_in_contiguous(self.next_hint, self.frame_count, page_nb, alignement) {
            Some(c) => Some(c),
            None => self.find_free_in_contiguous(0, self.next_hint, page_nb, alignement),
        }
    }

    /// Allocates `page_nb` contiguous frames aligned to `alignement` frames and
    /// returns the physical address of the first one.
    pub fn allocate_contiguous(&mut self, page_nb: usize, alignement: usize) -> (r: Option<u64>)
        requires
            old(self).wf(),
        ensures
            final(self).wf(),
            match r {
                None => {
                    &&& first_fit_from_hint(old(self)@, old(self).hint(), page_nb as int, alignement as u64, None)
                    &&& final(self)@ == old(self)@
                    &&& final(self).hint() == old(self).hint()
                },
                Some(addr) => {
                    let c = addr as int / FRAME_SIZE as int;
                    &&& addr as int % FRAME_SIZE as int == 0
                    &&& first_fit_from_hint(old(self)@, old(self).hint(), page_nb as int, alignement as u64, Some(c as usize))
                    &&& final(self)@ == set_range(old(self)@, c, c + page_nb, true)
                    &&& final(self).hint() == if c + page_nb == old(self)@.len() { 0 } else { c + page_nb }
                },
            },
    {
        let first_idx = match self.find_first_free_contiguous(page_nb, alignement) {
            Some(f) => f,
            None => return None,
        };
        let last_idx = first_idx + page_nb;
        let ghost old_view = self@;
        let mut frame_idx = first_idx;
        while frame_idx < last_idx
            invariant
                self.wf(),
                self@.len() == old_view.len(),
                first_idx <= frame_idx <= last_idx <= self@.len(),
                self@ == set_range(old_view, first_idx as int, frame_idx as int, true),
            decreases last_idx - frame_idx,
        {
            self.set_is_used(frame_idx, true);
            proof {
                assert(self@ =~= set_range(old_view, first_idx as int, frame_idx + 1, true));
            }
            frame_idx = frame_idx + 1;
        }
        self.next_hint = if last_idx == self.frame_count {
            0
        } else {
            last_idx
        };
        let addr = (first_idx as u64) * FRAME_SIZE;
        proof {
            assert(addr as int / FRAME_SIZE as int == first_idx);
        }
        Some(addr)
    }

    /// Marks the frames of the physical range `[start, end)` as free.
    pub fn mark_range_free(&mut self, start: u64, end: u64)
        requires
            old(self).wf(),
            start % FRAME_SIZE == 0,
            end % FRAME_SIZE == 0,
            start <= end,
            end / FRAME_SIZE <= old(self)@.len(),
        ensures
            final(self).wf(),
            final(self)@ == set_range(old(self)@, (start / FRAME_SIZE) as int, (end / FRAME_SIZE) as int, false),
            final(self).hint() == if old(self).hint() < (start / FRAME_SIZE) as int {
                old(self).hint()
            } else {
                (start / FRAME_SIZE) as int
            },
    {
        let start_idx = (start / FRAME_SIZE) as usize;
        let end_idx = (end / FRAME_SIZE) as usize;
        let ghost old_view = self@;
        let ghost old_hint = self.hint();
        let mut frame_idx = start_idx;
        while frame_idx < end_idx
            invariant
                self.wf(),
                self@.len() == old_view.len(),
                self.hint() == old_hint,
                start_idx <= frame_idx <= end_idx <= self@.len(),
                self@ == set_range(old_view, start_idx as int, frame_idx as int, false),
            decreases end_idx - frame_idx,
        {
            self.set_is_used(frame_idx, false);
            proof {
                assert(self@ =~= set_range(old_view, start_idx as int, frame_idx + 1, false));
            }
            frame_idx = frame_idx + 1;
        }
        if start_idx < self.next_hint {
            self.next_hint = start_idx;
        }
    }

    /// Gives back the frame of `frame_size` bytes that starts at `frame_start`.
    pub fn deallocate_frame(&mut self, frame_start: u64, frame_size: u64)
        requires
            old(self).wf(),
            frame_start % FRAME_SIZE == 0,
            frame_size % FRAME_SIZE == 0,
            frame_start + frame_size <= old(self)@.len() * FRAME_SIZE,
        ensures
            final(self).wf(),
            final(self)@ == set_range(
                old(self)@,
                (frame_start / FRAME_SIZE) as int,
                (frame_start + frame_size) / FRAME_SIZE as int,
                false,
            ),
            final(self).hint() == if old(self).hint() < (frame_start / FRAME_SIZE) as int {
                old(self).hint()
            } else {
                (frame_start / FRAME_SIZE) as int
            },
    {
        proof {
            assert((frame_start + frame_size) % (FRAME_SIZE as int) == 0);
            assert((frame_start + frame_size) / (FRAME_SIZE as int) <= self@.len());
        }
        self.mark_range_free(frame_start, frame_start + frame_size);
        let start_idx = (frame_start / FRAME_SIZE) as usize;
        if start_idx < self.next_hint {
            self.next_hint = start_idx;
        }
    }

    /// Allocates one frame of `page_size` bytes (4 KiB, 2 MiB or 1 GiB), aligned to its size.
    pub fn allocate_frame(&mut self, page_size: u64) -> (r: Option<u64>)
        requires
            old(self).wf(),
            page_size == 0x1000 || page_size == 0x20_0000 || page_size == 0x4000_0000,
        ensures
            final(self).wf(),
            match r {
                None => {
                    &&& first_fit_from_hint(
                        old(self)@,
                        old(self).hint(),
                        (page_size / FRAME_SIZE) as int,
                        page_size / FRAME_SIZE,
                        None,
                    )
                    &&& final(self)@ == old(self)@
                },
                Some(addr) => {
                    let c = addr as int / FRAME_SIZE as int;
                    let n = (page_size / FRAME_SIZE) as int;
                    &&& addr as int % page_size as int == 0
                    &&& first_fit_from_hint(old(self)@, old(self).hint(), n, page_size / FRAME_SIZE, Some(c as usize))
                    &&& final(self)@ == set_range(old(self)@, c, c + n, true)
                },
            },
    {
        let frame_count = (page_size / FRAME_SIZE) as usize;
        let r = self.allocate_contiguous(frame_count, frame_count);
        match r {
            None => None,
            Some(addr) => {
                proof {
                    let c = addr as int / FRAME_SIZE as int;
                    assert(c % (frame_count as int) == 0);
                    assert(addr as int == c * FRAME_SIZE);
                    let k = c / (frame_count as int);
                    lemma_fundamental_div_mod(c, frame_count as int);
                    assert(addr as int == k * (page_size as int)) by (nonlinear_arith)
                        requires
                            addr as int == c * 4096,
                            c == (frame_count as int) * k + c % (frame_count as int),
                            c % (frame_count as int) == 0,
                            page_size == frame_count * 4096;
                    lemma_mod_multiples_basic(k, page_size as int);
                }
                Some(addr)
            },
        }
    }
}

/// What a region of the boot memory map holds.
#[derive(Clone, Copy, PartialEq, Eq, Debug)]
pub enum MemoryRegionType {
    Usable,
    InUse,
    Reserved,
    AcpiReclaimable,
    AcpiNvs,
    BadMemory,
    Kernel,
    KernelStack,
    PageTable,
    Bootloader,
    FrameZero,
    Empty,
    BootInfo,
    Package,
    UnknownUefi(u32),
    UnknownBios(u32),
}

/// A range of physical frames `[start_frame_number, end_frame_number)`.
#[derive(Clone, Copy, PartialEq, Eq, Debug)]
pub struct FrameRange {
    pub start_frame_number: u64,
    pub end_frame_number: u64,
}

/// Highest physical frame number: physical addresses on x86-64 have at most 52 bits.
pub const MAX_PHYS_FRAME_NUMBER: u64 = 0x100_0000_0000u64;

impl FrameRange {
    pub open spec fn wf(self) -> bool {
        self.start_frame_number <= MAX_PHYS_FRAME_NUMBER && self.end_frame_number <= MAX_PHYS_FRAME_NUMBER
    }

    pub open spec fn spec_start_addr(self) -> u64 {
        (self.start_frame_number * FRAME_SIZE) as u64
    }

    pub open spec fn spec_end_addr(self) -> u64 {
        (self.end_frame_number * FRAME_SIZE) as u64
    }

    pub fn new(start_addr: u64, end_addr: u64) -> (r: FrameRange)
        ensures
            r.start_frame_number == start_addr / FRAME_SIZE,
            r.end_frame_number == end_addr / FRAME_SIZE,
    {
        FrameRange { start_frame_number: start_addr / FRAME_SIZE, end_frame_number: end_addr / FRAME_SIZE }
    }

    pub fn start_addr(&self) -> (r: u64)
        requires
            self.wf(),
        ensures
            r == self.spec_start_addr(),
            r == self.start_frame_number * FRAME_SIZE,
    {
        self.start_frame_number * FRAME_SIZE
    }

    pub fn end_addr(&self) -> (r: u64)
        requires
            self.wf(),
        ensures
            r == self.spec_end_addr(),
            r == self.end_frame_number * FRAME_SIZE,
    {
        self.end_frame_number * FRAME_SIZE
    }
}

/// One entry of the boot memory map.
#[derive(Clone, Copy, PartialEq, Eq, Debug)]
pub struct MemoryRegion {
    pub range: FrameRange,
    pub region_type: MemoryRegionType,
}

pub open spec fn regions_wf(regions: Seq<MemoryRegion>) -> bool {
    forall|i: int| 0 <= i < regions.len() ==> (#[trigger] regions[i]).range.wf()
}

pub open spec fn is_usable(r: MemoryRegion) -> bool {
    r.region_type == MemoryRegionType::Usable
}

/// Hands out frames in address order from the usable regions of the boot
/// memory map, before the bitmap allocator exists.
pub struct BootInfoFrameAllocator {
    pub memory_map: Vec<MemoryRegion>,
    pub region_idx: usize,
    pub next_addr: u64,
}

/// What one allocation of a `size`-byte frame from region `idx`, with next
/// free address `next` (0 for the region start), gives: the frame, and the
/// region index and next address afterwards.
pub open spec fn boot_alloc(regions: Seq<MemoryRegion>, idx: int, next: int, size: int) -> (Option<int>, int, int)
    decreases regions.len() - idx,
{
    if idx < 0 || idx >= regions.len() {
        (None, idx, next)
    } else {
        let r = regions[idx];
        if !is_usable(r) {
            boot_alloc(regions, idx + 1, 0, size)
        } else {
            let base = if next == 0 { r.range.spec_start_addr() as int } else { next };
            let candidate = round_up(base, size);
            if candidate + size <= r.range.spec_end_addr() {
                (Some(candidate), idx, candidate + size)
            } else {
                boot_alloc(regions, idx + 1, 0, size)
            }
        }
    }
}

impl BootInfoFrameAllocator {
    pub open spec fn wf(&self) -> bool {
        &&& regions_wf(self.memory_map@)
        &&& self.next_addr <= MAX_PHYS_FRAME_NUMBER * FRAME_SIZE
    }

    pub fn init(memory_map: Vec<MemoryRegion>) -> (r: BootInfoFrameAllocator)
        ensures
            r.memory_map@ == memory_map@,
            r.region_idx == 0,
            r.next_addr == 0,
    {
        BootInfoFrameAllocator { memory_map, region_idx: 0, next_addr: 0 }
    }

    /// Allocates a frame of `size` bytes (4 KiB, 2 MiB or 1 GiB) from the next
    /// usable region that still has room for it.
    pub fn allocate_frame(&mut self, size: u64) -> (r: Option<u64>)
        requires
            old(self).wf(),
            size == 0x1000 || size == 0x20_0000 || size == 0x4000_0000,
        ensures
            final(self).wf(),
            final(self).memory_map@ == old(self).memory_map@,
            ({
                let (res, idx, next) = boot_alloc(
                    old(self).memory_map@,
                    old(self).region_idx as int,
                    old(self).next_addr as int,
                    size as int,
                );
                &&& r == match res { Some(c) => Some(c as u64), None => None::<u64> }
                &&& final(self).region_idx == idx
                &&& final(self).next_addr == next
            }),
    {
        proof {
            assert(is_pow2(size)) by (bit_vector)
                requires
                    size == 0x1000 || size == 0x20_0000 || size == 0x4000_0000;
        }
        loop
            invariant
                self.wf(),
                self.memory_map@ == old(self).memory_map@,
                is_pow2(size),
                size == 0x1000 || size == 0x20_0000 || size == 0x4000_0000,
                boot_alloc(self.memory_map@, self.region_idx as int, self.next_addr as int, size as int)
                    == boot_alloc(
                    old(self).memory_map@,
                    old(self).region_idx as int,
                    old(self).next_addr as int,
                    size as int,
                ),
            decreases self.memory_map@.len() - self.region_idx,
        {
            if self.region_idx >= self.memory_map.len() {
                return None;
            }
            let region = self.memory_map[self.region_idx];
            proof {
                assert(region.range.wf());
            }
            let usable = match region.region_type {
                MemoryRegionType::Usable => true,
                _ => false,
            };
            if !usable {
                self.region_idx = self.region_idx + 1;
                self.next_addr = 0;
                continue;
            }
            let base = if self.next_addr == 0 {
                region.range.start_addr()
            } else {
                self.next_addr
            };
            proof {
                lemma_round_up(base as int, size as int);
            }
            let candidate = x86_64::align_up(base, size);
            let frame_end = match candidate.checked_add(size) {
                Some(e) => e,
                None => return None,
            };
            let region_end = region.range.end_addr();
            if frame_end <= region_end {
                self.next_addr = frame_end;
                return Some(candidate);
            }
            self.region_idx = self.region_idx + 1;
            self.next_addr = 0;
        }
    }
}

/// The highest end address of the usable regions (0 when there is none).
pub open spec fn max_usable_end(regions: Seq<MemoryRegion>) -> int
    decreases regions.len(),
{
    if regions.len() == 0 {
        0
    } else {
        let rest = max_usable_end(regions.drop_last());
        let last = regions.last();
        if is_usable(last) && last.range.spec_end_addr() > rest {
            last.range.spec_end_addr() as int
        } else {
            rest
        }
    }
}

/// Where the bitmap allocator starts freeing region `k`: past what the boot
/// allocator already handed out when `k` is the region it was working in.
pub open spec fn region_free_start(regions: Seq<MemoryRegion>, boot_idx: int, boot_next: int, k: int) -> int {
    let rs = round_up(regions[k].range.spec_start_addr() as int, FRAME_SIZE as int);
    if k == boot_idx {
        let bn = round_up(boot_next, FRAME_SIZE as int);
        if bn > rs { bn } else { rs }
    } else {
        rs
    }
}

pub open spec fn region_free_end(regions: Seq<MemoryRegion>, k: int) -> int {
    round_down(regions[k].range.spec_end_addr() as int, FRAME_SIZE as int)
}

/// Frame `i` is released by region `k` when the bitmap allocator is built.
pub open spec fn freed_by(regions: Seq<MemoryRegion>, boot_idx: int, boot_next: int, k: int, i: int) -> bool {
    &&& is_usable(regions[k])
    &&& k >= boot_idx
    &&& region_free_start(regions, boot_idx, boot_next, k) <= i * FRAME_SIZE
    &&& i * FRAME_SIZE < region_free_end(regions, k)
}

/// Frame `i` lies in a usable region, past what the boot allocator handed out.
pub open spec fn initially_free(regions: Seq<MemoryRegion>, boot_idx: int, boot_next: int, i: int) -> bool {
    exists|k: int| 0 <= k < regions.len() && #[trigger] freed_by(regions, boot_idx, boot_next, k, i)
}

pub open spec fn ceil_div(x: int, d: int) -> int {
    if x % d == 0 { x / d } else { x / d + 1 }
}

/// The 512 GiB physical-memory window: usable memory must lie below it.
pub const PHYSMAP_SIZE: u64 = 0x80_0000_0000u64;

proof fn lemma_max_usable_end(regions: Seq<MemoryRegion>, k: int)
    requires
        0 <= k < regions.len(),
        is_usable(regions[k]),
    ensures
        regions[k].range.spec_end_addr() <= max_usable_end(regions),
    decreases regions.len(),
{
    if k < regions.len() - 1 {
        lemma_max_usable_end(regions.drop_last(), k);
    }
}

proof fn lemma_max_usable_end_nonneg(regions: Seq<MemoryRegion>)
    ensures
        0 <= max_usable_end(regions),
    decreases regions.len(),
{
    if regions.len() > 0 {
        lemma_max_usable_end_nonneg(regions.drop_last());
    }
}

/// The highest end address of the usable regions of the boot memory map.
fn highest_usable_end(regions: &Vec<MemoryRegion>) -> (r: u64)
    requires
        regions_wf(regions@),
    ensures
        r == max_usable_end(regions@),
{
    let mut best: u64 = 0;
    let mut k: usize = 0;
    while k < regions.len()
        invariant
            k <= regions@.len(),
            regions_wf(regions@),
            best == max_usable_end(regions@.subrange(0, k as int)),
        decreases regions@.len() - k,
    {
        let region = regions[k];
        proof {
            assert(regions@.subrange(0, k + 1).drop_last() =~= regions@.subrange(0, k as int));
            assert(region.range.wf());
        }
        let usable = match region.region_type {
            MemoryRegionType::Usable => true,
            _ => false,
        };
        let end = region.range.end_addr();
        if usable && end > best {
            best = end;
        }
        k = k + 1;
    }
    proof {
        assert(regions@.subrange(0, regions@.len() as int) =~= regions@);
    }
    best
}

proof fn lemma_all_ones(b: u64)
    requires
        b < 64,
    ensures
        u64::MAX & (1u64 << b) != 0,
{
    assert(u64::MAX & (1u64 << b) != 0) by (bit_vector)
        requires
            b < 64;
}

/// Builds the bitmap allocator from the boot memory map: every frame below the
/// highest usable address starts in use, then the usable regions are released,
/// except what the boot allocator has already handed out.
pub fn init_bitmap_frame_allocator(boot_frame_allocator: BootInfoFrameAllocator) -> (r: BitMapFrameAllocator)
    requires
        boot_frame_allocator.wf(),
        exists|k: int| 0 <= k < boot_frame_allocator.memory_map@.len() && is_usable(#[trigger] boot_frame_allocator.memory_map@[k]),
        max_usable_end(boot_frame_allocator.memory_map@) <= PHYSMAP_SIZE,
    ensures
        r.wf(),
        r@.len() == ceil_div(max_usable_end(boot_frame_allocator.memory_map@), FRAME_SIZE as int),
        forall|i: int| 0 <= i < r@.len() ==> #[trigger] r@[i] == !initially_free(
            boot_frame_allocator.memory_map@,
            boot_frame_allocator.region_idx as int,
            boot_frame_allocator.next_addr as int,
            i,
        ),
        0 <= r.hint() <= r@.len(),
        forall|j: int| 0 <= j < r.hint() ==> #[trigger] r@[j],
        r.hint() < r@.len() ==> !r@[r.hint()],
{
    let regions = &boot_frame_allocator.memory_map;
    let ghost rs = regions@;
    let ghost boot_idx = boot_frame_allocator.region_idx as int;
    let ghost boot_next = boot_frame_allocator.next_addr as int;
    let highest = highest_usable_end(regions);
    proof {
        lemma_max_usable_end_nonneg(rs);
    }
    let frame_count = (highest / FRAME_SIZE + if highest % FRAME_SIZE != 0 { 1u64 } else { 0u64 }) as usize;
    let bitmap_word_count = frame_count / 64 + if frame_count % 64 != 0 { 1usize } else { 0usize };
    let bitmap = vec![u64::MAX; bitmap_word_count];
    let mut frame_alloc = BitMapFrameAllocator { bitmap, frame_count, next_hint: 0 };
    proof {
        assert forall|i: int| 0 <= i < frame_alloc@.len() implies #[trigger] frame_alloc@[i] by {
            assert(frame_alloc.bitmap@[i / 64] == u64::MAX);
            lemma_all_ones((i % 64) as u64);
        }
    }
    let mut k: usize = 0;
    while k < regions.len()
        invariant
            frame_alloc.wf(),
            frame_alloc@.len() == frame_count,
            frame_alloc.hint() == 0,
            frame_count as int == ceil_div(max_usable_end(rs), FRAME_SIZE as int),
            max_usable_end(rs) <= PHYSMAP_SIZE,
            regions@ == rs,
            regions_wf(rs),
            boot_idx == boot_frame_allocator.region_idx,
            boot_next == boot_frame_allocator.next_addr,
            boot_next <= MAX_PHYS_FRAME_NUMBER * FRAME_SIZE,
            k <= rs.len(),
            forall|i: int| 0 <= i < frame_count ==> #[trigger] frame_alloc@[i] == !(exists|k2: int| 0 <= k2 < k && freed_by(rs, boot_idx, boot_next, k2, i)),
        decreases rs.len() - k,
    {
        let region = regions[k];
        proof {
            assert(region.range.wf());
        }
        let usable = match region.region_type {
            MemoryRegionType::Usable => true,
            _ => false,
        };
        let ghost old_view = frame_alloc@;
        let mut freed = false;
        if usable {
            proof {
                lemma_round_up(region.range.spec_start_addr() as int, FRAME_SIZE as int);
                lemma_round_down(region.range.spec_end_addr() as int, FRAME_SIZE as int);
                assert(is_pow2(4096u64)) by (bit_vector);
            }
            let region_start = x86_64::align_up(region.range.start_addr(), FRAME_SIZE);
            let region_end = x86_64::align_down(region.range.end_addr(), FRAME_SIZE);
            if region_start < region_end && k >= boot_frame_allocator.region_idx {
                let free_start = if k == boot_frame_allocator.region_idx {
                    proof {
                        lemma_round_up(boot_next, FRAME_SIZE as int);
                    }
                    let bn = x86_64::align_up(boot_frame_allocator.next_addr, FRAME_SIZE);
                    if bn > region_start {
                        bn
                    } else {
                        region_start
                    }
                } else {
                    region_start
                };
                if free_start < region_end {
                    proof {
                        lemma_max_usable_end(rs, k as int);
                        lemma_round_up(free_start as int, FRAME_SIZE as int);
                    }
                    frame_alloc.mark_range_free(free_start, region_end);
                    freed = true;
                    proof {
                        assert forall|i: int| 0 <= i < frame_count implies #[trigger] frame_alloc@[i] == !(exists|k2: int|
                            0 <= k2 < k + 1 && freed_by(rs, boot_idx, boot_next, k2, i)) by {
                            if freed_by(rs, boot_idx, boot_next, k as int, i) {
                                assert(free_start / FRAME_SIZE <= i < region_end / FRAME_SIZE);
                            } else {
                                assert(!(free_start / FRAME_SIZE <= i < region_end / FRAME_SIZE));
                                assert forall|k2: int| 0 <= k2 < k + 1 && freed_by(rs, boot_idx, boot_next, k2, i) implies 0 <= k2 < k by {}
                            }
                        }
                    }
                }
            }
        }
        if !freed {
            proof {
                assert forall|i: int| 0 <= i < frame_count implies #[trigger] frame_alloc@[i] == !(exists|k2: int|
                    0 <= k2 < k + 1 && freed_by(rs, boot_idx, boot_next, k2, i)) by {
                    assert(!freed_by(rs, boot_idx, boot_next, k as int, i));
                    assert forall|k2: int| 0 <= k2 < k + 1 && freed_by(rs, boot_idx, boot_next, k2, i) implies 0 <= k2 < k by {}
                }
            }
        }
        k = k + 1;
    }
    proof {
        assert forall|i: int| 0 <= i < frame_count implies #[trigger] frame_alloc@[i] == !initially_free(rs, boot_idx, boot_next, i) by {
            assert((exists|k2: int| 0 <= k2 < rs.len() && freed_by(rs, boot_idx, boot_next, k2, i)) == initially_free(rs, boot_idx, boot_next, i));
        }
    }
    let first = frame_alloc.find_first_free_contiguous(1, 1);
    frame_alloc.next_hint = match first {
        Some(c) => c,
        None => frame_count,
    };
    proof {
        match first {
            Some(c) => {
                assert(fits(frame_alloc@, c as int, 1, 0, frame_count as int, 1));
                assert forall|j: int| 0 <= j < c implies #[trigger] frame_alloc@[j] by {
                    if !frame_alloc@[j] {
                        assert(fits(frame_alloc@, j, 1, 0, frame_count as int, 1));
                    }
                }
            },
            None => {
                assert(is_pow2(1u64)) by (bit_vector);
                assert forall|j: int| 0 <= j < frame_count implies #[trigger] frame_alloc@[j] by {
                    if !frame_alloc@[j] {
                        assert(fits(frame_alloc@, j, 1, 0, frame_count as int, 1));
                    }
                }
            },
        }
    }
    frame_alloc
}

} // verus!
