//! Loading user programs: the checks an ELF executable must pass, and the
//! plan of what to map where, with which permissions. Writing the page
//! tables and copying the bytes follows the plan.

use vstd::prelude::*;
use elf::ParseError;
use crate::align::{is_pow2, round_down};

verus! {

/// A parsing failure of the `elf` crate.
#[verifier::external_type_specification]
#[verifier::external_body]
pub struct ExParseError(ParseError);

pub const PT_LOAD: u32 = 1u32;
pub const PT_INTERP: u32 = 3u32;
pub const PT_PHDR: u32 = 6u32;
pub const PT_TLS: u32 = 7u32;
pub const PT_GNU_STACK: u32 = 0x6474e551u32;
pub const PT_GNU_RELRO: u32 = 0x6474e552u32;
pub const PF_X: u32 = 1u32;
pub const PF_W: u32 = 2u32;
pub const PF_R: u32 = 4u32;
pub const EM_X86_64: u16 = 62u16;
pub const ET_EXEC: u16 = 2u16;

/// Page table entry bits.
pub const PAGE_PRESENT: u64 = 1u64;
pub const PAGE_WRITABLE: u64 = 2u64;
pub const PAGE_USER_ACCESSIBLE: u64 = 4u64;
pub const PAGE_NO_CACHE: u64 = 0x10u64;
pub const PAGE_GLOBAL: u64 = 0x100u64;
pub const PAGE_NO_EXECUTE: u64 = 0x8000_0000_0000_0000u64;

/// The first user address a program may occupy, and the end of that range.
pub const ELF_MEM_REGION_START: u64 = 0x0020_0000u64;
pub const ELF_MEM_REGION_END: u64 = 0x4000_0000u64;

pub const PAGE_SIZE: u64 = 4096u64;

/// A program header.
#[derive(Clone, Copy, Debug, PartialEq, Eq, Structural)]
pub struct Segment {
    pub p_type: u32,
    pub p_offset: u64,
    pub p_vaddr: u64,
    pub p_filesz: u64,
    pub p_memsz: u64,
    pub p_flags: u32,
}

pub fn segment_of(p_type: u32, p_offset: u64, p_vaddr: u64, p_filesz: u64, p_memsz: u64, p_flags: u32) -> (r:
    Segment)
    ensures
        r == (Segment { p_type, p_offset, p_vaddr, p_filesz, p_memsz, p_flags }),
{
    Segment { p_type, p_offset, p_vaddr, p_filesz, p_memsz, p_flags }
}

/// The parts of an ELF file the loader reads: the file header fields and
/// the program headers, if the file has a table of them.
pub struct ElfInfo {
    pub machine: u16,
    pub elf_type: u16,
    pub entry: u64,
    pub segments: Option<Vec<Segment>>,
}

pub struct ElfInfoView {
    pub machine: u16,
    pub elf_type: u16,
    pub entry: u64,
    pub segments: Option<Seq<Segment>>,
}

impl View for ElfInfo {
    type V = ElfInfoView;

    open spec fn view(&self) -> ElfInfoView {
        ElfInfoView {
            machine: self.machine,
            elf_type: self.elf_type,
            entry: self.entry,
            segments: match self.segments {
                Some(v) => Some(v@),
                None => None,
            },
        }
    }
}

/// What `ElfBytes::minimal_parse` finds in `content`: the header fields and
/// program headers, or nothing when it refuses the bytes.
pub uninterp spec fn parsed_elf(content: Seq<u8>) -> Option<ElfInfoView>;

/// `ElfBytes::minimal_parse`, then its header and program headers. The
/// result depends on the bytes alone; what the crate accepts and what it
/// reads from them is named, not stated.
#[verifier::external_body]
fn parse_elf(content: &[u8]) -> (r: Result<ElfInfo, ParseError>)
    ensures
        r matches Ok(i) ==> parsed_elf(content@) == Some(i@),
        r is Err ==> parsed_elf(content@) is None,
{
    let file = elf::ElfBytes::<elf::endian::AnyEndian>::minimal_parse(content)?;
    let segments = file.segments().map(
        |t| t.iter().map(|h| segment_of(h.p_type, h.p_offset, h.p_vaddr, h.p_filesz, h.p_memsz, h.p_flags)).collect(),
    );
    Ok(ElfInfo { machine: file.ehdr.e_machine, elf_type: file.ehdr.e_type, entry: file.ehdr.e_entry, segments })
}

/// Why a program cannot be loaded.
#[derive(Debug)]
pub enum ElfError {
    ElfParsingErr(ParseError),
    UnsupportedArch,
    UnsupportedElfType,
    MapPagingErr,
    SegmentTableNotFound,
    TranslatePhysErr,
    InvalidElf,
    RelroErr,
    ExecutableStackUnsupported,
    WriteExecutableSection,
    InvalidElfVirtAddr(u64),
}

/// The page permissions of a segment with ELF flags `f`: present and
/// user-accessible, writable when `PF_W`, not executable unless `PF_X`;
/// none for a segment both writable and executable.
pub open spec fn page_permission(f: u32) -> Option<u64> {
    let w = f & PF_W != 0;
    let x = f & PF_X != 0;
    if w && x {
        None
    } else {
        Some(
            (PAGE_PRESENT | PAGE_USER_ACCESSIBLE | (if w { PAGE_WRITABLE } else { 0 }) | (if !x {
                PAGE_NO_EXECUTE
            } else {
                0
            })) as u64,
        )
    }
}

pub fn elf_to_page_permission(elf_flags: u32) -> (r: Option<u64>)
    ensures
        r == page_permission(elf_flags),
{
    let mut flags = PAGE_PRESENT | PAGE_USER_ACCESSIBLE;
    let w = elf_flags & PF_W != 0;
    let x = elf_flags & PF_X != 0;
    if w {
        flags = flags | PAGE_WRITABLE;
    }
    if !x {
        flags = flags | PAGE_NO_EXECUTE;
    }
    let writable = flags & PAGE_WRITABLE != 0;
    let no_exec = flags & PAGE_NO_EXECUTE != 0;
    assert((((PAGE_PRESENT | PAGE_USER_ACCESSIBLE) | PAGE_WRITABLE) & PAGE_WRITABLE != 0)
        && ((PAGE_PRESENT | PAGE_USER_ACCESSIBLE) & PAGE_WRITABLE == 0)
        && ((PAGE_PRESENT | PAGE_USER_ACCESSIBLE) & PAGE_NO_EXECUTE == 0)
        && (((PAGE_PRESENT | PAGE_USER_ACCESSIBLE) | PAGE_WRITABLE) & PAGE_NO_EXECUTE == 0)
        && (((PAGE_PRESENT | PAGE_USER_ACCESSIBLE) | PAGE_NO_EXECUTE) & PAGE_WRITABLE == 0)
        && (((PAGE_PRESENT | PAGE_USER_ACCESSIBLE) | PAGE_NO_EXECUTE) & PAGE_NO_EXECUTE != 0)
        && ((((PAGE_PRESENT | PAGE_USER_ACCESSIBLE) | PAGE_WRITABLE) | PAGE_NO_EXECUTE) & PAGE_WRITABLE != 0)
        && ((((PAGE_PRESENT | PAGE_USER_ACCESSIBLE) | PAGE_WRITABLE) | PAGE_NO_EXECUTE) & PAGE_NO_EXECUTE != 0)
        && ((PAGE_PRESENT | PAGE_USER_ACCESSIBLE | 0u64 | PAGE_NO_EXECUTE) == ((PAGE_PRESENT | PAGE_USER_ACCESSIBLE) | PAGE_NO_EXECUTE))
        && ((PAGE_PRESENT | PAGE_USER_ACCESSIBLE | PAGE_WRITABLE | PAGE_NO_EXECUTE) == (((PAGE_PRESENT | PAGE_USER_ACCESSIBLE) | PAGE_WRITABLE) | PAGE_NO_EXECUTE))
        && ((PAGE_PRESENT | PAGE_USER_ACCESSIBLE | 0u64 | 0u64) == (PAGE_PRESENT | PAGE_USER_ACCESSIBLE))) by (bit_vector);
    if writable && !no_exec {
        return None;
    }
    Some(flags)
}

/// `addr` lies in the user program range.
pub open spec fn valid_elf_addr(addr: u64) -> bool {
    ELF_MEM_REGION_START <= addr < ELF_MEM_REGION_END
}

pub fn validate_elf_virt_addr(virt_addr: u64) -> (r: Result<(), ElfError>)
    ensures
        valid_elf_addr(virt_addr) ==> r is Ok,
        !valid_elf_addr(virt_addr) ==> (r matches Err(ElfError::InvalidElfVirtAddr(a)) && a == virt_addr),
{
    if !(ELF_MEM_REGION_START <= virt_addr && virt_addr < ELF_MEM_REGION_END) {
        return Err(ElfError::InvalidElfVirtAddr(virt_addr));
    }
    Ok(())
}

/// What to do for a loadable segment: map the pages from `start_page` to
/// `end_page` (both page addresses, both included) with `flags`, zero them,
/// then copy `file_size` bytes from `file_offset` of the file to `vaddr`.
#[derive(Clone, Copy, Debug, PartialEq, Eq, Structural)]
pub struct SegmentPlan {
    pub start_page: u64,
    pub end_page: u64,
    pub flags: u64,
    pub vaddr: u64,
    pub file_offset: u64,
    pub file_size: u64,
}

/// The plan for a loadable segment, or why it is refused; none for an
/// empty segment.
pub open spec fn segment_plan(s: Segment) -> Result<Option<SegmentPlan>, int> {
    if s.p_filesz > s.p_memsz {
        Err(0)
    } else if s.p_memsz == 0 {
        Ok(None)
    } else if s.p_vaddr + s.p_memsz - 1 > u64::MAX {
        Err(0)
    } else if !valid_elf_addr(s.p_vaddr) {
        Err(1)
    } else if !valid_elf_addr((s.p_vaddr + s.p_memsz - 1) as u64) {
        Err(2)
    } else if page_permission(s.p_flags) is None {
        Err(3)
    } else {
        Ok(
            Some(
                SegmentPlan {
                    start_page: round_down(s.p_vaddr as int, PAGE_SIZE as int) as u64,
                    end_page: round_down(s.p_vaddr + s.p_memsz - 1, PAGE_SIZE as int) as u64,
                    flags: page_permission(s.p_flags)->Some_0,
                    vaddr: s.p_vaddr,
                    file_offset: s.p_offset,
                    file_size: s.p_filesz,
                },
            ),
        )
    }
}

proof fn lemma_page_pow2()
    ensures
        is_pow2(PAGE_SIZE),
{
    assert(is_pow2(4096u64)) by (bit_vector);
}

/// Checks a loadable segment and plans its mapping.
pub fn plan_load_segment(s: &Segment) -> (r: Result<Option<SegmentPlan>, ElfError>)
    ensures
        match segment_plan(*s) {
            Ok(p) => r == Ok::<Option<SegmentPlan>, ElfError>(p),
            Err(e) => if e == 0 {
                r matches Err(ElfError::InvalidElf)
            } else if e == 1 {
                r matches Err(ElfError::InvalidElfVirtAddr(a)) && a == s.p_vaddr
            } else if e == 2 {
                r matches Err(ElfError::InvalidElfVirtAddr(a)) && a == s.p_vaddr + s.p_memsz - 1
            } else {
                r matches Err(ElfError::WriteExecutableSection)
            },
        },
{
    if s.p_filesz > s.p_memsz {
        return Err(ElfError::InvalidElf);
    }
    if s.p_memsz == 0 {
        return Ok(None);
    }
    let end = match s.p_vaddr.checked_add(s.p_memsz - 1) {
        Some(e) => e,
        None => return Err(ElfError::InvalidElf),
    };
    match validate_elf_virt_addr(s.p_vaddr) {
        Ok(()) => {},
        Err(e) => return Err(e),
    }
    match validate_elf_virt_addr(end) {
        Ok(()) => {},
        Err(e) => return Err(e),
    }
    let flags = match elf_to_page_permission(s.p_flags) {
        Some(f) => f,
        None => return Err(ElfError::WriteExecutableSection),
    };
    proof {
        lemma_page_pow2();
    }
    Ok(
        Some(
            SegmentPlan {
                start_page: x86_64::align_down(s.p_vaddr, PAGE_SIZE),
                end_page: x86_64::align_down(end, PAGE_SIZE),
                flags,
                vaddr: s.p_vaddr,
                file_offset: s.p_offset,
                file_size: s.p_filesz,
            },
        ),
    )
}

/// The copy of `len` bytes to `dst`, cut at page boundaries: pieces
/// `(destination, offset in the source, length)`, in order, covering the
/// whole, none crossing a page.
pub open spec fn chunks_ok(dst: u64, len: u64, chunks: Seq<(u64, u64, u64)>) -> bool {
    &&& forall|i: int|
        0 <= i < chunks.len() ==> {
            let c = #[trigger] chunks[i];
            &&& c.2 > 0
            &&& c.0 == dst + c.1
            &&& c.0 % PAGE_SIZE + c.2 <= PAGE_SIZE
        }
    &&& chunks.len() > 0 ==> chunks[0].1 == 0
    &&& forall|i: int| 0 <= i < chunks.len() - 1 ==> #[trigger] chunks[i + 1].1 == chunks[i].1 + chunks[i].2
    &&& chunks.len() > 0 ==> chunks.last().1 + chunks.last().2 == len
    &&& chunks.len() == 0 ==> len == 0
}

/// Whether the file bytes a segment plan copies lie within a program of
/// `content_len` bytes; the loader copies them without looking, so a caller
/// holding the program tests this first.
pub fn segment_in_file(plan: &SegmentPlan, content_len: usize) -> (r: bool)
    ensures
        r == (plan.file_offset + plan.file_size <= content_len),
{
    match plan.file_offset.checked_add(plan.file_size) {
        Some(end) => end <= content_len as u64,
        None => false,
    }
}

/// The file bytes of every planned segment lie within a program of `len`
/// bytes.
pub open spec fn loads_in_file(loads: Seq<SegmentPlan>, len: int) -> bool {
    forall|i: int| 0 <= i < loads.len() ==> #[trigger] loads[i].file_offset + loads[i].file_size <= len
}

/// `r` is what `plan_program` gives for `content`: the plan of `plan_elf`
/// when every segment's bytes lie in the file; its refusal; or `InvalidElf`
/// for a plan that would copy bytes from past the end of the file.
pub open spec fn plans_program(content: Seq<u8>, r: Result<ElfPlan, ElfError>) -> bool {
    match r {
        Ok(p) => plans_elf(content, Ok(p)) && loads_in_file(p.loads@, content.len() as int),
        Err(e) => plans_elf(content, Err(e)) || (e is InvalidElf && exists|p: ElfPlan|
            plans_elf(content, Ok(p)) && !loads_in_file(p.loads@, content.len() as int)),
    }
}

/// Checks and plans a program as `plan_elf` does, and refuses a plan that
/// would copy segment bytes from past the end of the file.
pub fn plan_program(content: &[u8]) -> (r: Result<ElfPlan, ElfError>)
    ensures
        plans_program(content@, r),
{
    let plan = match plan_elf(content) {
        Ok(p) => p,
        Err(e) => return Err(e),
    };
    let mut i: usize = 0;
    while i < plan.loads.len()
        invariant
            i <= plan.loads@.len(),
            plans_elf(content@, Ok(plan)),
            forall|k: int| 0 <= k < i ==> #[trigger] plan.loads@[k].file_offset + plan.loads@[k].file_size
                <= content@.len(),
        decreases plan.loads@.len() - i,
    {
        if !segment_in_file(&plan.loads[i], content.len()) {
            proof {
                assert(!loads_in_file(plan.loads@, content@.len() as int));
                assert(plans_elf(content@, Ok(plan)) && !loads_in_file(plan.loads@, content@.len() as int));
            }
            return Err(ElfError::InvalidElf);
        }
        i = i + 1;
    }
    Ok(plan)
}

/// Cuts the copy of `file_size` bytes to `dst` at page boundaries.
pub fn copy_chunks(dst: u64, file_size: u64) -> (r: Vec<(u64, u64, u64)>)
    requires
        dst + file_size <= u64::MAX,
    ensures
        chunks_ok(dst, file_size, r@),
{
    let mut out: Vec<(u64, u64, u64)> = Vec::new();
    let mut written: u64 = 0;
    while written < file_size
        invariant
            dst + file_size <= u64::MAX,
            written <= file_size,
            forall|i: int|
                0 <= i < out@.len() ==> {
                    let c = #[trigger] out@[i];
                    &&& c.2 > 0
                    &&& c.0 == dst + c.1
                    &&& c.0 % PAGE_SIZE + c.2 <= PAGE_SIZE
                },
            out@.len() > 0 ==> out@[0].1 == 0,
            forall|i: int| 0 <= i < out@.len() - 1 ==> #[trigger] out@[i + 1].1 == out@[i].1 + out@[i].2,
            out@.len() > 0 ==> out@.last().1 + out@.last().2 == written,
            out@.len() == 0 ==> written == 0,
        decreases file_size - written,
    {
        let d = dst + written;
        let offset_in_page = d % PAGE_SIZE;
        let left = PAGE_SIZE - offset_in_page;
        let chunk_len = if left < file_size - written {
            left
        } else {
            file_size - written
        };
        let ghost before = out@;
        out.push((d, written, chunk_len));
        proof {
            assert(out@[out@.len() - 1] == (d, written, chunk_len));
            assert forall|i: int| 0 <= i < out@.len() - 1 implies #[trigger] out@[i + 1].1 == out@[i].1 + out@[i].2 by {
                if i < out@.len() - 2 {
                    assert(out@[i + 1] == before[i + 1]);
                }
            }
        }
        written = written + chunk_len;
    }
    out
}

/// The pages a read-only-after-relocation region covers, or none when it
/// covers no whole page; `None` inside `Ok` means nothing to protect.
pub open spec fn relro_pages(addr: u64, size: u64) -> Result<Option<(u64, u64)>, ()> {
    if addr + size > u64::MAX {
        Err(())
    } else {
        let s = round_down(addr as int, PAGE_SIZE as int);
        let e = round_down(addr + size, PAGE_SIZE as int);
        if s == e {
            Ok(None)
        } else {
            Ok(Some((s as u64, e as u64)))
        }
    }
}

/// The page range `[start, end)` to make read-only for a relocation-read-only
/// region at `addr` of `size` bytes.
pub fn relro_range(addr: u64, size: u64) -> (r: Result<Option<(u64, u64)>, ElfError>)
    ensures
        match relro_pages(addr, size) {
            Ok(p) => r == Ok::<Option<(u64, u64)>, ElfError>(p),
            Err(()) => r matches Err(ElfError::RelroErr),
        },
{
    let end = match addr.checked_add(size) {
        Some(e) => e,
        None => return Err(ElfError::RelroErr),
    };
    proof {
        lemma_page_pow2();
    }
    let protect_start = x86_64::align_down(addr, PAGE_SIZE);
    let protect_end = x86_64::align_down(end, PAGE_SIZE);
    if protect_start == protect_end {
        return Ok(None);
    }
    Ok(Some((protect_start, protect_end)))
}

/// What loading a program does, once checked: the segments to map, the
/// regions to make read-only afterwards, and the entry point.
pub struct ElfPlan {
    pub loads: Vec<SegmentPlan>,
    pub relro: Vec<(u64, u64)>,
    pub entry: u64,
}

/// The outcome of the first pass over the program headers: the plans of
/// the loadable segments, or the first refusal.
pub open spec fn first_pass(segs: Seq<Segment>) -> Result<Seq<SegmentPlan>, int>
    decreases segs.len(),
{
    if segs.len() == 0 {
        Ok(Seq::empty())
    } else {
        match first_pass(segs.drop_last()) {
            Err(e) => Err(e),
            Ok(plans) => {
                let s = segs.last();
                if s.p_type == PT_LOAD {
                    match segment_plan(s) {
                        Err(e) => Err(10 + e),
                        Ok(None) => Ok(plans),
                        Ok(Some(p)) => Ok(plans.push(p)),
                    }
                } else if s.p_type == PT_GNU_STACK && s.p_flags & PF_X != 0 {
                    Err(4)
                } else if s.p_type == PT_INTERP {
                    Err(5)
                } else {
                    Ok(plans)
                }
            },
        }
    }
}

/// The last address of a region of `size` bytes at `addr`, wrapping.
pub open spec fn region_last(addr: u64, size: u64) -> u64 {
    if size >= 1 {
        addr.wrapping_add((size - 1) as u64)
    } else {
        addr.wrapping_sub(1)
    }
}

/// The outcome of the second pass: the ranges to protect, or the first
/// refusal: an address outside the user range, or a region that overflows.
pub open spec fn second_pass(segs: Seq<Segment>) -> Result<Seq<(u64, u64)>, Option<u64>>
    decreases segs.len(),
{
    if segs.len() == 0 {
        Ok(Seq::empty())
    } else {
        match second_pass(segs.drop_last()) {
            Err(e) => Err(e),
            Ok(ranges) => {
                let s = segs.last();
                if s.p_type != PT_GNU_RELRO {
                    Ok(ranges)
                } else if !valid_elf_addr(s.p_vaddr) {
                    Err(Some(s.p_vaddr))
                } else if !valid_elf_addr(region_last(s.p_vaddr, s.p_memsz)) {
                    Err(Some(region_last(s.p_vaddr, s.p_memsz)))
                } else {
                    match relro_pages(s.p_vaddr, s.p_memsz) {
                        Err(()) => Err(None),
                        Ok(None) => Ok(ranges),
                        Ok(Some(p)) => Ok(ranges.push(p)),
                    }
                }
            },
        }
    }
}

/// `r` is the error that the refusal code `e` of the first pass stands for.
pub open spec fn first_pass_error(e: int, r: ElfError) -> bool {
    if e == 4 {
        r is ExecutableStackUnsupported
    } else if e == 5 {
        r is UnsupportedElfType
    } else if e == 10 {
        r is InvalidElf
    } else if e == 13 {
        r is WriteExecutableSection
    } else {
        r is InvalidElfVirtAddr
    }
}

/// `r` is what checking and planning `content` gives: the refusal of the
/// first check that fails, or the plans of the loadable segments, the
/// read-only ranges and the entry point.
pub open spec fn plans_elf(content: Seq<u8>, r: Result<ElfPlan, ElfError>) -> bool {
    match parsed_elf(content) {
        None => r matches Err(ElfError::ElfParsingErr(_)),
        Some(info) => plans_elf_info(info, r),
    }
}

/// `r` is what checking and planning a program with header fields and
/// program headers `info` gives: the refusal of the first check that fails,
/// or the plans of the loadable segments, the read-only ranges and the entry
/// point.
pub open spec fn plans_elf_info(info: ElfInfoView, r: Result<ElfPlan, ElfError>) -> bool {
    if info.machine != EM_X86_64 {
        r matches Err(ElfError::UnsupportedArch)
    } else if info.elf_type != ET_EXEC {
        r matches Err(ElfError::UnsupportedElfType)
    } else {
        match info.segments {
            None => r matches Err(ElfError::SegmentTableNotFound),
            Some(segs) => match first_pass(segs) {
                Err(e) => r matches Err(err) && first_pass_error(e, err),
                Ok(loads) => match second_pass(segs) {
                    Err(Some(a)) => r matches Err(ElfError::InvalidElfVirtAddr(b)) && a == b,
                    Err(None) => r matches Err(ElfError::RelroErr),
                    Ok(ranges) => if !valid_elf_addr(info.entry) {
                        r matches Err(ElfError::InvalidElfVirtAddr(a)) && a == info.entry
                    } else {
                        r matches Ok(p) && p.loads@ == loads && p.relro@ == ranges && p.entry == info.entry
                    },
                },
            },
        }
    }
}

/// Checks an executable and plans its loading: x86-64, statically linked
/// executable, with a program header table; loadable segments in the user
/// range, never writable and executable at once; no executable stack; an
/// entry point in the user range. Where the segments' bytes lie in the file
/// is not checked here (`plan_program` checks it).
pub fn plan_elf(content: &[u8]) -> (r: Result<ElfPlan, ElfError>)
    ensures
        plans_elf(content@, r),
{
    let info = match parse_elf(content) {
        Ok(i) => i,
        Err(e) => return Err(ElfError::ElfParsingErr(e)),
    };
    plan_elf_info(&info)
}

/// Checks the header fields and program headers `info` of a program and
/// plans its loading, as `plan_elf` does once the file is parsed.
pub fn plan_elf_info(info: &ElfInfo) -> (r: Result<ElfPlan, ElfError>)
    ensures
        plans_elf_info(info@, r),
{
    if info.machine != EM_X86_64 {
        return Err(ElfError::UnsupportedArch);
    }
    if info.elf_type != ET_EXEC {
        return Err(ElfError::UnsupportedElfType);
    }
    let segs = match &info.segments {
        Some(s) => s,
        None => return Err(ElfError::SegmentTableNotFound),
    };
    let mut loads: Vec<SegmentPlan> = Vec::new();
    let mut i: usize = 0;
    while i < segs.len()
        invariant
            i <= segs@.len(),
            info@.segments == Some(segs@),
            info.machine == EM_X86_64,
            info.elf_type == ET_EXEC,
            first_pass(segs@.subrange(0, i as int)) == Ok::<Seq<SegmentPlan>, int>(loads@),
        decreases segs@.len() - i,
    {
        proof {
            assert(segs@.subrange(0, i + 1).drop_last() =~= segs@.subrange(0, i as int));
        }
        let s = segs[i];
        if s.p_type == PT_LOAD {
            match plan_load_segment(&s) {
                Ok(Some(p)) => loads.push(p),
                Ok(None) => {},
                Err(e) => {
                    proof {
                        lemma_first_pass_stuck(segs@, i as int + 1);
                        assert(segs@.subrange(0, segs@.len() as int) =~= segs@);
                    }
                    return Err(e);
                },
            }
        } else if s.p_type == PT_GNU_STACK && s.p_flags & PF_X != 0 {
            proof {
                lemma_first_pass_stuck(segs@, i as int + 1);
                assert(segs@.subrange(0, segs@.len() as int) =~= segs@);
            }
            return Err(ElfError::ExecutableStackUnsupported);
        } else if s.p_type == PT_INTERP {
            proof {
                lemma_first_pass_stuck(segs@, i as int + 1);
                assert(segs@.subrange(0, segs@.len() as int) =~= segs@);
            }
            return Err(ElfError::UnsupportedElfType);
        }
        i = i + 1;
    }
    proof {
        assert(segs@.subrange(0, segs@.len() as int) =~= segs@);
    }
    let mut relro: Vec<(u64, u64)> = Vec::new();
    let mut j: usize = 0;
    while j < segs.len()
        invariant
            j <= segs@.len(),
            info@.segments == Some(segs@),
            info.machine == EM_X86_64,
            info.elf_type == ET_EXEC,
            first_pass(segs@) == Ok::<Seq<SegmentPlan>, int>(loads@),
            second_pass(segs@.subrange(0, j as int)) == Ok::<Seq<(u64, u64)>, Option<u64>>(relro@),
        decreases segs@.len() - j,
    {
        proof {
            assert(segs@.subrange(0, j + 1).drop_last() =~= segs@.subrange(0, j as int));
        }
        let s = segs[j];
        if s.p_type == PT_GNU_RELRO {
            match validate_elf_virt_addr(s.p_vaddr) {
                Ok(()) => {},
                Err(e) => {
                    proof {
                        lemma_second_pass_stuck(segs@, j as int + 1);
                        assert(segs@.subrange(0, segs@.len() as int) =~= segs@);
                    }
                    return Err(e);
                },
            }
            let last = if s.p_memsz >= 1 {
                s.p_vaddr.wrapping_add(s.p_memsz - 1)
            } else {
                s.p_vaddr.wrapping_sub(1)
            };
            match validate_elf_virt_addr(last) {
                Ok(()) => {},
                Err(e) => {
                    proof {
                        lemma_second_pass_stuck(segs@, j as int + 1);
                        assert(segs@.subrange(0, segs@.len() as int) =~= segs@);
                    }
                    return Err(e);
                },
            }
            match relro_range(s.p_vaddr, s.p_memsz) {
                Ok(Some(p)) => relro.push(p),
                Ok(None) => {},
                Err(e) => {
                    proof {
                        lemma_second_pass_stuck(segs@, j as int + 1);
                        assert(segs@.subrange(0, segs@.len() as int) =~= segs@);
                    }
                    return Err(e);
                },
            }
        }
        j = j + 1;
    }
    proof {
        assert(segs@.subrange(0, segs@.len() as int) =~= segs@);
    }
    match validate_elf_virt_addr(info.entry) {
        Ok(()) => {},
        Err(e) => return Err(e),
    }
    Ok(ElfPlan { loads, relro, entry: info.entry })
}

proof fn lemma_first_pass_stuck(segs: Seq<Segment>, k: int)
    requires
        0 <= k <= segs.len(),
        first_pass(segs.subrange(0, k)) is Err,
    ensures
        first_pass(segs.subrange(0, segs.len() as int)) == first_pass(segs.subrange(0, k)),
    decreases segs.len() - k,
{
    if k < segs.len() {
        assert(segs.subrange(0, k + 1).drop_last() =~= segs.subrange(0, k));
        lemma_first_pass_stuck(segs, k + 1);
    }
}

proof fn lemma_second_pass_stuck(segs: Seq<Segment>, k: int)
    requires
        0 <= k <= segs.len(),
        second_pass(segs.subrange(0, k)) is Err,
    ensures
        second_pass(segs.subrange(0, segs.len() as int)) == second_pass(segs.subrange(0, k)),
    decreases segs.len() - k,
{
    if k < segs.len() {
        assert(segs.subrange(0, k + 1).drop_last() =~= segs.subrange(0, k));
        lemma_second_pass_stuck(segs, k + 1);
    }
}

} // verus!
