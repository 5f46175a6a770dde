//! What the bootloader computes before it jumps to the kernel: the kernel's
//! program headers (read with `xmas_elf`), the plan of the kernel's mappings
//! and of its stack, and the figures it derives from the memory map.

use vstd::prelude::*;
use crate::elf_loader::{PAGE_GLOBAL, PAGE_NO_EXECUTE, PAGE_PRESENT, PAGE_USER_ACCESSIBLE, PAGE_WRITABLE, PF_W, PF_X};
use crate::frame_alloc::{FrameRange, MemoryRegion, MemoryRegionType, MAX_PHYS_FRAME_NUMBER};

verus! {

/// What a kernel program header is, as far as the bootloader cares.
#[derive(Clone, Copy, Debug, PartialEq, Eq, Structural)]
pub enum SegKind {
    Load,
    Tls,
    Other,
    /// A type number that the ELF format does not define.
    Invalid,
}

/// A 64-bit program header of the kernel image.
#[derive(Clone, Copy, Debug, PartialEq, Eq, Structural)]
pub struct BootSegment {
    pub kind: SegKind,
    pub flags: u32,
    pub offset: u64,
    pub vaddr: u64,
    pub file_size: u64,
    pub mem_size: u64,
}

pub fn boot_segment(kind: SegKind, flags: u32, offset: u64, vaddr: u64, file_size: u64, mem_size: u64) -> (r:
    BootSegment)
    ensures
        r == (BootSegment { kind, flags, offset, vaddr, file_size, mem_size }),
{
    BootSegment { kind, flags, offset, vaddr, file_size, mem_size }
}

/// The little-endian 16-bit field of `b` at `i`.
pub open spec fn le16_at(b: Seq<u8>, i: int) -> int {
    b[i] + b[i + 1] * 256
}

/// The little-endian 64-bit field of `b` at `i`.
pub open spec fn le64_at(b: Seq<u8>, i: int) -> int {
    le16_at(b, i) + le16_at(b, i + 2) * 0x1_0000 + le16_at(b, i + 4) * 0x1_0000_0000 + le16_at(b, i + 6)
        * 0x1_0000_0000_0000
}

/// A 64-bit ELF header whose tables `xmas_elf` can look at without its
/// arithmetic overflowing and, when it has program headers, whose entries
/// are large enough to hold a 64-bit program header.
pub open spec fn elf64_fields_ok(b: Seq<u8>) -> bool {
    &&& b.len() >= 64
    &&& b[4] == 2
    &&& le16_at(b, 56) > 0 ==> le16_at(b, 54) >= 56
    &&& le64_at(b, 32) + le16_at(b, 54) * le16_at(b, 56) <= u64::MAX
    &&& le64_at(b, 40) + le16_at(b, 58) * le16_at(b, 60) <= u64::MAX
}

fn le16_from(b: &[u8], i: usize) -> (r: u64)
    requires
        i + 2 <= b@.len(),
    ensures
        r == le16_at(b@, i as int),
        r <= 0xffff,
{
    b[i] as u64 + b[i + 1] as u64 * 256
}

fn le64_from(b: &[u8], i: usize) -> (r: u128)
    requires
        i + 8 <= b.len(),
    ensures
        r == le64_at(b@, i as int),
        r <= u64::MAX,
{
    let a = le16_from(b, i) as u128;
    let c = le16_from(b, i + 2) as u128;
    let d = le16_from(b, i + 4) as u128;
    let e = le16_from(b, i + 6) as u128;
    a + c * 0x1_0000 + d * 0x1_0000_0000 + e * 0x1_0000_0000_0000
}

/// When the image has program headers, their table starts on an 8-byte
/// boundary of the image and its entries are a multiple of 8 bytes long, so
/// that every program header lies on an 8-byte boundary of the image, as
/// `xmas_elf` asserts when it reads one.
pub open spec fn program_headers_aligned(b: Seq<u8>) -> bool {
    le16_at(b, 56) > 0 ==> le64_at(b, 32) % 8 == 0 && le16_at(b, 54) % 8 == 0
}

/// Whether `program_headers_aligned` holds of a kernel image whose header
/// `elf64_fields_ok` accepts.
pub fn check_program_headers_aligned(b: &[u8]) -> (r: bool)
    requires
        b@.len() >= 64,
    ensures
        r == program_headers_aligned(b@),
{
    le16_from(b, 56) == 0 || (le64_from(b, 32) % 8 == 0 && le16_from(b, 54) % 8 == 0)
}

/// Whether `elf64_fields_ok` holds of the kernel image.
pub fn check_elf64_fields(b: &[u8]) -> (r: bool)
    ensures
        r == elf64_fields_ok(b@),
{
    if b.len() < 64 || b[4] != 2 {
        return false;
    }
    let phentsize = le16_from(b, 54) as u128;
    let phnum = le16_from(b, 56) as u128;
    if phnum > 0 && phentsize < 56 {
        return false;
    }
    let shentsize = le16_from(b, 58) as u128;
    let shnum = le16_from(b, 60) as u128;
    assert(phentsize * phnum <= 0xffff * 0xffff) by (nonlinear_arith)
        requires phentsize <= 0xffff, phnum <= 0xffff;
    assert(shentsize * shnum <= 0xffff * 0xffff) by (nonlinear_arith)
        requires shentsize <= 0xffff, shnum <= 0xffff;
    let ph_end = le64_from(b, 32) + phentsize * phnum;
    let sh_end = le64_from(b, 40) + shentsize * shnum;
    ph_end <= u64::MAX as u128 && sh_end <= u64::MAX as u128
}

/// Whether the bytes start on an 8-byte boundary in memory:
/// `<*const u64>::is_aligned` on their start. Where the bytes lie is up to
/// the machine, so nothing is stated of the result.
#[verifier::external_body]
fn starts_word_aligned(bytes: &[u8]) -> (r: bool) {
    bytes.as_ptr().cast::<u64>().is_aligned()
}

/// A kernel image that starts on an 8-byte boundary in memory, which
/// `xmas_elf` needs to read its headers in place. Only `KernelBytes::new`
/// makes one, after testing that.
pub struct KernelBytes<'a> {
    bytes: &'a [u8],
}

impl<'a> View for KernelBytes<'a> {
    type V = Seq<u8>;

    closed spec fn view(&self) -> Seq<u8> {
        self.bytes@
    }
}

impl<'a> KernelBytes<'a> {
    /// The image in `bytes`, if they start on an 8-byte boundary in memory;
    /// where they lie is up to the machine.
    pub fn new(bytes: &'a [u8]) -> (r: Option<KernelBytes<'a>>)
        ensures
            r matches Some(k) ==> k@ == bytes@,
    {
        if starts_word_aligned(bytes) {
            Some(KernelBytes { bytes })
        } else {
            None
        }
    }

    pub fn as_bytes(&self) -> (r: &'a [u8])
        ensures
            r@ == self@,
    {
        self.bytes
    }
}

/// The entry point and number of program headers that `xmas_elf` reads from
/// the kernel image, or the message of its refusal.
pub uninterp spec fn kernel_elf_header(bytes: Seq<u8>) -> Result<(u64, u16), Seq<char>>;

/// Program header `index` of the kernel image as `xmas_elf` reads it: none
/// when it cannot be read, `Some(None)` for a 32-bit header.
pub uninterp spec fn kernel_program_header(bytes: Seq<u8>, index: u16) -> Option<Option<BootSegment>>;

/// `xmas_elf::ElfFile::new` and `xmas_elf::header::sanity_check` on the
/// kernel image, then the header's entry point and program header count.
/// The contract names the result; it claims nothing more of it. The crate
/// reads the header in place and asserts that it lies on an 8-byte boundary
/// in memory: a `KernelBytes` starts on one.
#[verifier::external_body]
fn read_kernel_elf_header(kernel: &KernelBytes) -> (r: Result<(u64, u16), &'static str>)
    requires
        elf64_fields_ok(kernel@),
        program_headers_aligned(kernel@),
    ensures
        r matches Ok(h) ==> kernel_elf_header(kernel@) is Ok && kernel_elf_header(kernel@)->Ok_0 == h,
        r matches Err(e) ==> kernel_elf_header(kernel@) is Err && kernel_elf_header(kernel@)->Err_0 == e@,
{
    let file = xmas_elf::ElfFile::new(kernel.bytes)?;
    xmas_elf::header::sanity_check(&file)?;
    Ok((file.header.pt2.entry_point(), file.header.pt2.ph_count()))
}

/// `xmas_elf::ElfFile::program_header` with `index`, its type told apart as
/// the bootloader needs. The contract names the result. The crate reads the
/// header in place and asserts that it lies on an 8-byte boundary in
/// memory: a `KernelBytes` starts on one, and `program_headers_aligned`
/// puts every program header on one within the image.
#[verifier::external_body]
fn read_kernel_program_header(kernel: &KernelBytes, index: u16) -> (r: Option<Option<BootSegment>>)
    requires
        elf64_fields_ok(kernel@),
        program_headers_aligned(kernel@),
        kernel_elf_header(kernel@) matches Ok((_, n)) && index < n,
    ensures
        r == kernel_program_header(kernel@, index),
{
    let file = xmas_elf::ElfFile::new(kernel.bytes).ok()?;
    match file.program_header(index).ok()? {
        xmas_elf::program::ProgramHeader::Ph64(h) => {
            let kind = match h.get_type() {
                Ok(xmas_elf::program::Type::Load) => SegKind::Load,
                Ok(xmas_elf::program::Type::Tls) => SegKind::Tls,
                Ok(_) => SegKind::Other,
                Err(_) => SegKind::Invalid,
            };
            Some(Some(boot_segment(kind, h.flags.0, h.offset, h.virtual_addr, h.file_size, h.mem_size)))
        },
        xmas_elf::program::ProgramHeader::Ph32(_) => Some(None),
    }
}

/// Why the kernel image cannot be loaded.
#[derive(Debug)]
pub enum KernelImageError {
    /// Not a 64-bit ELF image whose header tables can be looked at.
    NotElf64,
    /// The image does not start on an 8-byte boundary in memory.
    MisalignedImage,
    /// Program headers that do not lie on 8-byte boundaries of the image.
    MisalignedProgramHeaders,
    /// Refused by `xmas_elf`, with its message.
    Parse(String),
    /// A 32-bit program header.
    Elf32Segment,
    /// More program headers than the bootloader keeps.
    TooManySegments,
}

/// At most this many program headers are kept.
pub const MAX_KERNEL_SEGMENTS: usize = 32usize;

/// The kernel image: its entry point and program headers.
pub struct KernelImage {
    pub entry: u64,
    pub segments: Vec<BootSegment>,
}

/// The program headers from `i` on, the iteration stopping at the first
/// one that cannot be read; `None` for a 32-bit one.
pub open spec fn headers_from(bytes: Seq<u8>, i: int, n: int) -> Seq<Option<BootSegment>>
    decreases n - i,
{
    if i >= n || i < 0 {
        Seq::empty()
    } else {
        match kernel_program_header(bytes, i as u16) {
            None => Seq::empty(),
            Some(h) => seq![h] + headers_from(bytes, i + 1, n),
        }
    }
}

/// What taking the program headers `hs` in order gives, with entry point
/// `entry`: a 32-bit header met before the limit is refused, then more
/// headers than the limit; otherwise all of them.
pub open spec fn image_from_headers(entry: u64, hs: Seq<Option<BootSegment>>, r: Result<KernelImage, KernelImageError>) -> bool {
    if exists|k: int| 0 <= k <= MAX_KERNEL_SEGMENTS && k < hs.len() && hs[k] is None {
        r matches Err(KernelImageError::Elf32Segment)
    } else if hs.len() > MAX_KERNEL_SEGMENTS {
        r matches Err(KernelImageError::TooManySegments)
    } else {
        r matches Ok(img) && img.entry == entry && img.segments@.len() == hs.len() && forall|k: int|
            0 <= k < hs.len() ==> hs[k] == Some(#[trigger] img.segments@[k])
    }
}

/// Takes the program headers `headers`, read in order, as the bootloader
/// keeps them: a 32-bit header stops it, and so does a header past the
/// `MAX_KERNEL_SEGMENTS` it has room for.
pub fn kernel_image_from_headers(entry: u64, headers: &Vec<Option<BootSegment>>) -> (r: Result<KernelImage, KernelImageError>)
    ensures
        image_from_headers(entry, headers@, r),
{
    let ghost hs = headers@;
    let mut segments: Vec<BootSegment> = Vec::new();
    let mut i: usize = 0;
    while i < headers.len()
        invariant
            hs == headers@,
            i <= hs.len(),
            i <= MAX_KERNEL_SEGMENTS,
            segments@.len() == i,
            forall|k: int| 0 <= k < i ==> hs[k] == Some(#[trigger] segments@[k]),
        decreases hs.len() - i,
    {
        match headers[i] {
            None => {
                proof {
                    assert(hs[i as int] is None);
                }
                return Err(KernelImageError::Elf32Segment);
            },
            Some(s) => {
                if i == MAX_KERNEL_SEGMENTS {
                    proof {
                        assert forall|k: int| 0 <= k <= MAX_KERNEL_SEGMENTS && k < hs.len() implies !(hs[k] is None) by {
                            if k < i {
                                assert(hs[k] == Some(segments@[k]));
                            }
                        }
                    }
                    return Err(KernelImageError::TooManySegments);
                }
                segments.push(s);
            },
        }
        i = i + 1;
    }
    proof {
        assert forall|k: int| 0 <= k <= MAX_KERNEL_SEGMENTS && k < hs.len() implies !(hs[k] is None) by {
            assert(hs[k] == Some(segments@[k]));
        }
    }
    Ok(KernelImage { entry, segments })
}

/// What reading the kernel image `bytes` gives.
pub open spec fn kernel_image_outcome(bytes: Seq<u8>, r: Result<KernelImage, KernelImageError>) -> bool {
    if !elf64_fields_ok(bytes) {
        r matches Err(KernelImageError::NotElf64)
    } else if !program_headers_aligned(bytes) {
        r matches Err(KernelImageError::MisalignedProgramHeaders)
    } else {
        match kernel_elf_header(bytes) {
            Err(e) => r matches Err(KernelImageError::Parse(m)) && m@ == e,
            Ok((entry, n)) => image_from_headers(entry, headers_from(bytes, 0, n as int), r),
        }
    }
}

/// Reads a kernel image that starts on an 8-byte boundary in memory: its
/// entry point and its 64-bit program headers, in order.
pub fn read_aligned_kernel_image(kernel: &KernelBytes) -> (r: Result<KernelImage, KernelImageError>)
    ensures
        kernel_image_outcome(kernel@, r),
{
    let b = kernel.as_bytes();
    if !check_elf64_fields(b) {
        return Err(KernelImageError::NotElf64);
    }
    if !check_program_headers_aligned(b) {
        return Err(KernelImageError::MisalignedProgramHeaders);
    }
    let (entry, n) = match read_kernel_elf_header(kernel) {
        Ok(h) => h,
        Err(e) => return Err(KernelImageError::Parse(e.to_owned())),
    };
    let ghost bytes = kernel@;
    let mut headers: Vec<Option<BootSegment>> = Vec::new();
    let mut i: u16 = 0;
    while i < n
        invariant
            bytes == kernel@,
            elf64_fields_ok(bytes),
            program_headers_aligned(bytes),
            kernel_elf_header(bytes) == Ok::<(u64, u16), Seq<char>>((entry, n)),
            i <= n,
            headers_from(bytes, 0, n as int) == headers@ + headers_from(bytes, i as int, n as int),
        ensures
            headers_from(bytes, 0, n as int) == headers@,
        decreases n - i,
    {
        match read_kernel_program_header(kernel, i) {
            None => {
                proof {
                    assert(headers_from(bytes, i as int, n as int) =~= Seq::<Option<BootSegment>>::empty());
                    assert(headers_from(bytes, 0, n as int) =~= headers@);
                }
                break;
            },
            Some(h) => {
                let ghost before = headers@;
                headers.push(h);
                proof {
                    let rest = headers_from(bytes, i as int + 1, n as int);
                    assert(headers_from(bytes, i as int, n as int) == seq![h] + rest);
                    assert(before + (seq![h] + rest) =~= headers@ + rest);
                }
            },
        }
        i = i + 1;
    }
    proof {
        if i >= n {
            assert(headers_from(bytes, i as int, n as int) =~= Seq::<Option<BootSegment>>::empty());
            assert(headers@ + Seq::<Option<BootSegment>>::empty() =~= headers@);
        }
    }
    kernel_image_from_headers(entry, &headers)
}

/// Reads the kernel image: its entry point and its 64-bit program headers,
/// in order; a 32-bit header or more than `MAX_KERNEL_SEGMENTS` headers is
/// refused, and so is an image that does not start on an 8-byte boundary in
/// memory (where it lies is up to the machine).
pub fn read_kernel_image(kernel: &[u8]) -> (r: Result<KernelImage, KernelImageError>)
    ensures
        !elf64_fields_ok(kernel@) ==> r matches Err(KernelImageError::NotElf64),
        !(r matches Err(KernelImageError::MisalignedImage)) ==> kernel_image_outcome(kernel@, r),
{
    if !check_elf64_fields(kernel) {
        return Err(KernelImageError::NotElf64);
    }
    match KernelBytes::new(kernel) {
        Some(k) => read_aligned_kernel_image(&k),
        None => Err(KernelImageError::MisalignedImage),
    }
}

/// A virtual address whose bits 48 to 63 repeat bit 47.
pub open spec fn is_canonical(a: int) -> bool {
    (0 <= a < 0x8000_0000_0000) || (0xffff_8000_0000_0000 <= a <= u64::MAX)
}

pub fn canonical(a: u64) -> (r: bool)
    ensures
        r == is_canonical(a as int),
{
    a < 0x8000_0000_0000u64 || a >= 0xffff_8000_0000_0000u64
}

/// The final page table flags of a loaded kernel segment: present and global,
/// not executable unless its flags say so, writable when they say so.
pub open spec fn kernel_segment_flags(flags: u32) -> u64 {
    let base = PAGE_PRESENT | PAGE_GLOBAL;
    let nx = if flags & PF_X == PF_X { base } else { base | PAGE_NO_EXECUTE };
    if flags & PF_W == PF_W { nx | PAGE_WRITABLE } else { nx }
}

/// The flags a kernel page is first mapped with, while it is filled.
pub open spec fn temporary_flags() -> u64 {
    PAGE_PRESENT | PAGE_WRITABLE | PAGE_NO_EXECUTE | PAGE_GLOBAL
}

/// How one loadable segment of the kernel is put in memory: the pages from
/// `first_page` to `last_page` (inclusive) are mapped with the temporary
/// flags and zeroed, the file bytes of `copy` are copied, then the pages get
/// `flags`.
#[derive(Clone, Copy, Debug, PartialEq, Eq, Structural)]
pub struct SegmentMapping {
    pub first_page: u64,
    pub last_page: u64,
    pub copy: Option<CopyRange>,
    pub flags: u64,
}

/// File bytes `[offset, offset + len)` copied to the address `dest`.
#[derive(Clone, Copy, Debug, PartialEq, Eq, Structural)]
pub struct CopyRange {
    pub offset: u64,
    pub len: u64,
    pub dest: u64,
}

/// The thread-local template of the kernel.
#[derive(Clone, Copy, Debug, PartialEq, Eq, Structural)]
pub struct TlsTemplate {
    pub start_addr: u64,
    pub mem_size: u64,
    pub file_size: u64,
}

/// What one program header asks of the bootloader.
#[derive(Clone, Copy, Debug, PartialEq, Eq, Structural)]
pub enum SegmentAction {
    MapPages(SegmentMapping),
    Tls(TlsTemplate),
    Nothing,
}

/// Why the kernel cannot be mapped.
#[derive(Clone, Copy, Debug, PartialEq, Eq, Structural)]
pub enum MapKernelError {
    InvalidSegmentType,
    FileLargerThanMemory,
    NonCanonicalAddress,
    OutsideImage,
    MultipleTlsSegments,
}

/// What `map_segment` does with the program header `s` of an image of `len` bytes.
pub open spec fn segment_action(s: BootSegment, len: int) -> Result<SegmentAction, MapKernelError> {
    match s.kind {
        SegKind::Invalid => Err(MapKernelError::InvalidSegmentType),
        SegKind::Other => Ok(SegmentAction::Nothing),
        SegKind::Tls => Ok(SegmentAction::Tls(TlsTemplate {
            start_addr: s.vaddr,
            mem_size: s.mem_size,
            file_size: s.file_size,
        })),
        SegKind::Load => if s.mem_size == 0 {
            Ok(SegmentAction::Nothing)
        } else if s.file_size > s.mem_size {
            Err(MapKernelError::FileLargerThanMemory)
        } else if !is_canonical(s.vaddr as int) || !is_canonical(s.vaddr + s.mem_size) || !is_canonical(
            s.vaddr + s.mem_size - 1,
        ) {
            Err(MapKernelError::NonCanonicalAddress)
        } else if s.file_size != 0 && s.offset + s.file_size > len {
            Err(MapKernelError::OutsideImage)
        } else {
            Ok(SegmentAction::MapPages(SegmentMapping {
                first_page: (s.vaddr as int - s.vaddr as int % 4096) as u64,
                last_page: ((s.vaddr + s.mem_size - 1) - (s.vaddr + s.mem_size - 1) % 4096) as u64,
                copy: if s.file_size != 0 {
                    Some(CopyRange { offset: s.offset, len: s.file_size, dest: s.vaddr })
                } else {
                    None
                },
                flags: kernel_segment_flags(s.flags),
            }))
        },
    }
}

/// The pages of a loaded kernel segment are present and global, writable
/// exactly when the segment's flags say writable (`PF_W`), executable
/// exactly when they say executable (`PF_X`), and never user-accessible.
pub proof fn lemma_segment_page_flags(s: BootSegment, len: int)
    requires
        segment_action(s, len) matches Ok(SegmentAction::MapPages(_)),
    ensures
        ({
            let f = segment_action(s, len)->Ok_0->MapPages_0.flags;
            &&& (f & PAGE_WRITABLE != 0) == (s.flags & PF_W != 0)
            &&& (f & PAGE_NO_EXECUTE != 0) == (s.flags & PF_X == 0)
            &&& f & PAGE_PRESENT != 0
            &&& f & PAGE_GLOBAL != 0
            &&& f & PAGE_USER_ACCESSIBLE == 0
        }),
{
    let x = s.flags;
    let f = kernel_segment_flags(x);
    assert(f == segment_action(s, len)->Ok_0->MapPages_0.flags);
    let w = x & 2u32 == 2u32;
    let e = x & 1u32 == 1u32;
    assert((x & 2u32 == 2u32) == (x & 2u32 != 0) && (x & 1u32 == 1u32) == (x & 1u32 != 0)) by (bit_vector);
    let base = 1u64 | 0x100u64;
    let nx: u64 = if e { base } else { base | 0x8000_0000_0000_0000u64 };
    let g: u64 = if w { nx | 2u64 } else { nx };
    assert(f == g);
    assert(((g & 2u64 != 0) == w) && ((g & 0x8000_0000_0000_0000u64 != 0) == !e) && (g & 1u64 != 0) && (g
        & 0x100u64 != 0) && (g & 4u64 == 0)) by (bit_vector)
        requires
            base == 1u64 | 0x100u64,
            nx == (if e { base } else { base | 0x8000_0000_0000_0000u64 }),
            g == (if w { nx | 2u64 } else { nx }),
    ;
}

/// Plans the mapping of one program header of the kernel image.
pub fn map_segment(s: &BootSegment, len: usize) -> (r: Result<SegmentAction, MapKernelError>)
    ensures
        r == segment_action(*s, len as int),
{
    match s.kind {
        SegKind::Invalid => Err(MapKernelError::InvalidSegmentType),
        SegKind::Other => Ok(SegmentAction::Nothing),
        SegKind::Tls => Ok(SegmentAction::Tls(TlsTemplate {
            start_addr: s.vaddr,
            mem_size: s.mem_size,
            file_size: s.file_size,
        })),
        SegKind::Load => {
            if s.mem_size == 0 {
                return Ok(SegmentAction::Nothing);
            }
            if s.file_size > s.mem_size {
                return Err(MapKernelError::FileLargerThanMemory);
            }
            if !canonical(s.vaddr) || s.mem_size > u64::MAX - s.vaddr {
                return Err(MapKernelError::NonCanonicalAddress);
            }
            let end = s.vaddr + s.mem_size;
            if !canonical(end) || !canonical(end - 1) {
                return Err(MapKernelError::NonCanonicalAddress);
            }
            if s.file_size != 0 && (s.file_size > u64::MAX - s.offset || s.offset + s.file_size > len as u64) {
                return Err(MapKernelError::OutsideImage);
            }
            let first_page = s.vaddr - s.vaddr % 4096;
            let last_page = (end - 1) - (end - 1) % 4096;
            let copy = if s.file_size != 0 {
                Some(CopyRange { offset: s.offset, len: s.file_size, dest: s.vaddr })
            } else {
                None
            };
            let base = PAGE_PRESENT | PAGE_GLOBAL;
            let nx = if s.flags & PF_X == PF_X {
                base
            } else {
                base | PAGE_NO_EXECUTE
            };
            let flags = if s.flags & PF_W == PF_W {
                nx | PAGE_WRITABLE
            } else {
                nx
            };
            Ok(SegmentAction::MapPages(SegmentMapping { first_page, last_page, copy, flags }))
        },
    }
}

/// The kernel's memory once mapped: where its stack ends, and its
/// thread-local template.
#[derive(Clone, Copy, Debug, PartialEq, Eq, Structural)]
pub struct MemoryInfo {
    pub stack_end: u64,
    pub tls_segment: Option<TlsTemplate>,
}

/// The mappings of the kernel and of its stack.
pub struct KernelPlan {
    pub mappings: Vec<SegmentMapping>,
    /// The stack pages: the first one and the end of the last one.
    pub stack: (u64, u64),
    pub info: MemoryInfo,
}

/// The result of planning the segments from `k` on, with `tls` the
/// template found so far: the mappings, and the template at the end.
pub open spec fn plan_segments(segs: Seq<BootSegment>, len: int, k: int, tls: Option<TlsTemplate>) -> Result<
    (Seq<SegmentMapping>, Option<TlsTemplate>),
    MapKernelError,
>
    decreases segs.len() - k,
{
    if k >= segs.len() || k < 0 {
        Ok((Seq::empty(), tls))
    } else {
        match segment_action(segs[k], len) {
            Err(e) => Err(e),
            Ok(SegmentAction::Nothing) => plan_segments(segs, len, k + 1, tls),
            Ok(SegmentAction::Tls(t)) => if tls is Some {
                Err(MapKernelError::MultipleTlsSegments)
            } else {
                plan_segments(segs, len, k + 1, Some(t))
            },
            Ok(SegmentAction::MapPages(m)) => match plan_segments(segs, len, k + 1, tls) {
                Err(e) => Err(e),
                Ok((rest, t)) => Ok((seq![m] + rest, t)),
            },
        }
    }
}

/// The kernel stack below a guard page: it starts one page after
/// `stack_page` and holds `stack_pages` pages.
pub open spec fn stack_range(stack_page: int, stack_pages: int) -> Option<(int, int)> {
    let start = stack_page + 4096;
    let end = start + stack_pages * 4096;
    if stack_pages >= 0x10_0000_0000_0000 || !is_canonical(start) || !is_canonical(end) {
        None
    } else {
        Some((start, end))
    }
}

/// Plans the mapping of the kernel image of `len` bytes with the program
/// headers `segments`, and of its stack of `stack_pages` pages after the

/// `r` is what planning the mappings of the kernel's segments `segs` (from
/// an image of `len` bytes) and of a stack of `stack_pages` pages above the
/// guard page `stack_page` gives.
pub open spec fn kernel_mapped(
    segs: Seq<BootSegment>,
    len: int,
    stack_page: int,
    stack_pages: int,
    r: Result<KernelPlan, MapKernelError>,
) -> bool {
    match plan_segments(segs, len, 0, None) {
        Err(e) => r == Err::<KernelPlan, MapKernelError>(e),
        Ok((maps, tls)) => match stack_range(stack_page, stack_pages) {
            None => r == Err::<KernelPlan, MapKernelError>(MapKernelError::NonCanonicalAddress),
            Some((s, e)) => r matches Ok(p) && p.mappings@ == maps && p.stack == (s as u64, e as u64) && p.info
                == (MemoryInfo { stack_end: e as u64, tls_segment: tls }),
        },
    }
}

/// guard page `stack_page` (a page address).
#[verifier::rlimit(30)]
pub fn map_kernel(segments: &Vec<BootSegment>, len: usize, stack_page: u64, stack_pages: u64) -> (r: Result<
    KernelPlan,
    MapKernelError,
>)
    requires
        stack_page % 4096 == 0,
    ensures
        kernel_mapped(segments@, len as int, stack_page as int, stack_pages as int, r),
{
    let ghost segs = segments@;
    let mut mappings: Vec<SegmentMapping> = Vec::new();
    let mut tls: Option<TlsTemplate> = None;
    let mut k: usize = 0;
    while k < segments.len()
        invariant
            segs == segments@,
            k <= segs.len(),
            plan_segments(segs, len as int, 0, None) == match plan_segments(segs, len as int, k as int, tls) {
                Err(e) => Err(e),
                Ok((rest, t)) => Ok((mappings@ + rest, t)),
            },
        decreases segs.len() - k,
    {
        let action = map_segment(&segments[k], len);
        let ghost before = mappings@;
        match action {
            Err(e) => {
                proof {
                    assert(plan_segments(segs, len as int, k as int, tls) == Err::<(Seq<SegmentMapping>, Option<TlsTemplate>), MapKernelError>(e));
                }
                return Err(e);
            },
            Ok(SegmentAction::Nothing) => {},
            Ok(SegmentAction::Tls(t)) => {
                if tls.is_some() {
                    return Err(MapKernelError::MultipleTlsSegments);
                }
                tls = Some(t);
            },
            Ok(SegmentAction::MapPages(m)) => {
                mappings.push(m);
                proof {
                    match plan_segments(segs, len as int, k + 1, tls) {
                        Err(e) => {},
                        Ok((rest, t)) => {
                            assert(before + (seq![m] + rest) =~= mappings@ + rest);
                        },
                    }
                }
            },
        }
        k = k + 1;
    }
    proof {
        assert(mappings@ + Seq::<SegmentMapping>::empty() =~= mappings@);
    }
    if stack_pages >= 0x10_0000_0000_0000 || stack_page > u64::MAX - 4096 {
        return Err(MapKernelError::NonCanonicalAddress);
    }
    let start = stack_page + 4096;
    if !canonical(start) || stack_pages * 4096 > u64::MAX - start {
        return Err(MapKernelError::NonCanonicalAddress);
    }
    let end = start + stack_pages * 4096;
    if !canonical(end) {
        return Err(MapKernelError::NonCanonicalAddress);
    }
    Ok(KernelPlan {
        mappings,
        stack: (start, end),
        info: MemoryInfo { stack_end: end, tls_segment: tls },
    })
}

/// The highest end address of the regions of the memory map, if it has any.
pub open spec fn max_end_addr(regions: Seq<MemoryRegion>) -> Option<int>
    decreases regions.len(),
{
    if regions.len() == 0 {
        None
    } else {
        let e = regions.last().range.end_frame_number * 4096;
        match max_end_addr(regions.drop_last()) {
            None => Some(e),
            Some(m) => Some(if e > m { e } else { m }),
        }
    }
}

/// The top of physical memory: the highest end address of the memory map.
pub fn max_phys_addr(regions: &Vec<MemoryRegion>) -> (r: Option<u64>)
    requires
        forall|i: int| 0 <= i < regions@.len() ==> (#[trigger] regions@[i]).range.end_frame_number <= MAX_PHYS_FRAME_NUMBER,
    ensures
        r matches Some(v) ==> max_end_addr(regions@) == Some(v as int),
        r is None ==> max_end_addr(regions@) is None,
{
    let mut best: Option<u64> = None;
    let mut k: usize = 0;
    while k < regions.len()
        invariant
            k <= regions@.len(),
            forall|i: int| 0 <= i < regions@.len() ==> (#[trigger] regions@[i]).range.end_frame_number <= MAX_PHYS_FRAME_NUMBER,
            best matches Some(v) ==> max_end_addr(regions@.subrange(0, k as int)) == Some(v as int),
            best is None ==> max_end_addr(regions@.subrange(0, k as int)) is None,
        decreases regions@.len() - k,
    {
        proof {
            assert(regions@.subrange(0, k + 1).drop_last() =~= regions@.subrange(0, k as int));
            assert(regions@[k as int].range.end_frame_number <= MAX_PHYS_FRAME_NUMBER);
        }
        let e = regions[k].range.end_frame_number * 4096;
        best = match best {
            None => Some(e),
            Some(m) => Some(if e > m { e } else { m }),
        };
        k = k + 1;
    }
    proof {
        assert(regions@.subrange(0, regions@.len() as int) =~= regions@);
    }
    best
}

/// The frames of the physical range `[start, end)`: from the frame holding
/// `start` to the one holding the last byte.
pub fn frames_of(start: u64, end: u64) -> (r: FrameRange)
    requires
        start < end,
    ensures
        r.start_frame_number == start / 4096,
        r.end_frame_number == (end - 1) / 4096 + 1,
{
    FrameRange { start_frame_number: start / 4096, end_frame_number: (end - 1) / 4096 + 1 }
}

/// How many pages of 4 KiB hold `size` bytes.
pub fn pages_for(size: u64) -> (r: u64)
    ensures
        r == (size as int + 4095) / 4096,
{
    size / 4096 + if size % 4096 != 0 { 1 } else { 0 }
}

/// How many 512 GiB entries of the top-level table cover physical memory up to `max_phys`.
pub fn level4_entries_for(max_phys: u64) -> (r: u64)
    ensures
        r == (max_phys as int + 0x80_0000_0000 - 1) / 0x80_0000_0000,
{
    max_phys / 0x80_0000_0000 + if max_phys % 0x80_0000_0000 != 0 { 1 } else { 0 }
}

/// The stack canary handed to the kernel: a random word whose low byte is zero.
pub fn stack_guard(random: u64) -> (r: u64)
    ensures
        r == random & 0xffff_ffff_ffff_ff00,
        r % 256 == 0,
{
    assert((random & 0xffff_ffff_ffff_ff00u64) % 256 == 0) by (bit_vector);
    random & 0xffff_ffff_ffff_ff00u64
}

/// The address at which the top-level page table maps itself through entry
/// `index` used at all four levels: the index in each of the four fields,
/// sign-extended from bit 47.
pub open spec fn recursive_addr(index: int) -> int {
    let raw = index * 0x80_0000_0000 + index * 0x4000_0000 + index * 0x20_0000 + index * 0x1000;
    if index >= 256 { raw + 0xffff_0000_0000_0000 } else { raw }
}

pub fn recursive_table_addr(index: u16) -> (r: u64)
    requires
        index < 512,
    ensures
        r == recursive_addr(index as int),
{
    let i = index as u64;
    let raw = i * 0x80_0000_0000 + i * 0x4000_0000 + i * 0x20_0000 + i * 0x1000;
    if index >= 256 {
        raw + 0xffff_0000_0000_0000
    } else {
        raw
    }
}

/// Region `i` of a sorted memory map after clipping: a usable region that
/// runs into the next one ends where the next one starts.
pub open spec fn clipped_region(regions: Seq<MemoryRegion>, i: int) -> MemoryRegion {
    let r = regions[i];
    if i + 1 < regions.len() && r.range.end_frame_number > regions[i + 1].range.start_frame_number
        && r.region_type == MemoryRegionType::Usable {
        MemoryRegion {
            range: FrameRange { end_frame_number: regions[i + 1].range.start_frame_number, ..r.range },
            ..r
        }
    } else {
        r
    }
}

/// Clips the usable regions of a sorted memory map so that none runs into
/// the region after it.
pub fn clip_usable_overlaps(regions: &mut Vec<MemoryRegion>)
    ensures
        final(regions)@.len() == old(regions)@.len(),
        forall|i: int| 0 <= i < old(regions)@.len() ==> #[trigger] final(regions)@[i] == clipped_region(old(regions)@, i),
{
    let n = regions.len();
    let mut i: usize = 0;
    while i < n
        invariant
            n == regions@.len(),
            n == old(regions)@.len(),
            i <= n,
            forall|j: int| 0 <= j < i ==> #[trigger] regions@[j] == clipped_region(old(regions)@, j),
            forall|j: int| i <= j < n ==> #[trigger] regions@[j] == old(regions)@[j],
        decreases n - i,
    {
        if i + 1 < n {
            let next_start = regions[i + 1].range.start_frame_number;
            let r = regions[i];
            let usable = match r.region_type {
                MemoryRegionType::Usable => true,
                _ => false,
            };
            if r.range.end_frame_number > next_start && usable {
                let clipped = MemoryRegion {
                    range: FrameRange { start_frame_number: r.range.start_frame_number, end_frame_number: next_start },
                    region_type: r.region_type,
                };
                regions.set(i, clipped);
            }
        }
        i = i + 1;
    }
}

/// Region `a` comes no later than region `b` in a sorted memory map: by
/// first frame, then by end frame.
pub open spec fn region_le(a: MemoryRegion, b: MemoryRegion) -> bool {
    ||| a.range.start_frame_number < b.range.start_frame_number
    ||| a.range.start_frame_number == b.range.start_frame_number && a.range.end_frame_number
        <= b.range.end_frame_number
}

/// The regions come in order of their first frame, then of their end frame.
pub open spec fn regions_sorted(s: Seq<MemoryRegion>) -> bool {
    forall|i: int, j: int| 0 <= i < j < s.len() ==> region_le(#[trigger] s[i], #[trigger] s[j])
}

/// The region that keeps physical frame 0 from ever being handed out.
pub open spec fn frame_zero_region() -> MemoryRegion {
    MemoryRegion { range: FrameRange { start_frame_number: 0, end_frame_number: 1 }, region_type: MemoryRegionType::FrameZero }
}

fn region_before(a: &MemoryRegion, b: &MemoryRegion) -> (r: bool)
    ensures
        r == region_le(*a, *b),
{
    a.range.start_frame_number < b.range.start_frame_number || (a.range.start_frame_number
        == b.range.start_frame_number && a.range.end_frame_number <= b.range.end_frame_number)
}

/// Sorts the memory map by first frame, then by end frame; the regions are
/// the same, only their order changes.
pub fn sort_memory_map(map: &mut Vec<MemoryRegion>)
    ensures
        final(map)@.to_multiset() == old(map)@.to_multiset(),
        regions_sorted(final(map)@),
{
    let mut out: Vec<MemoryRegion> = Vec::new();
    let mut i: usize = 0;
    proof {
        assert(map@.subrange(0, 0) =~= Seq::<MemoryRegion>::empty());
    }
    while i < map.len()
        invariant
            i <= map@.len(),
            map@ == old(map)@,
            regions_sorted(out@),
            out@.to_multiset() == map@.subrange(0, i as int).to_multiset(),
        decreases map@.len() - i,
    {
        let x = map[i];
        let mut k: usize = 0;
        while k < out.len() && region_before(&out[k], &x)
            invariant
                k <= out@.len(),
                forall|j: int| 0 <= j < k ==> region_le(#[trigger] out@[j], x),
            decreases out@.len() - k,
        {
            k = k + 1;
        }
        let ghost before = out@;
        out.insert(k, x);
        proof {
            vstd::seq_lib::to_multiset_insert(before, k as int, x);
            vstd::seq_lib::to_multiset_build(map@.subrange(0, i as int), x);
            assert(map@.subrange(0, i + 1) =~= map@.subrange(0, i as int).push(x));
            before.insert_ensures(k as int, x);
            assert forall|a: int, b: int| 0 <= a < b < out@.len() implies region_le(
                #[trigger] out@[a],
                #[trigger] out@[b],
            ) by {
                if b < k {
                } else if b == k {
                } else if a < k {
                } else if a == k {
                    assert(!region_le(before[k as int], x));
                    assert(out@[b] == before[b - 1]);
                    if b - 1 > k {
                        assert(region_le(before[k as int], before[b - 1]));
                    }
                } else {
                    assert(out@[a] == before[a - 1] && out@[b] == before[b - 1]);
                }
            }
        }
        i = i + 1;
    }
    proof {
        assert(map@.subrange(0, map@.len() as int) =~= map@);
    }
    *map = out;
}

/// What the bootloader hands to the kernel.
pub struct BootInfo {
    pub memory_map: Vec<MemoryRegion>,
    pub tls_template: Option<TlsTemplate>,
    pub recursive_page_table_addr: u64,
    pub physical_memory_offset: u64,
    pub rand_stack_guard: u64,
}

/// Assembles what the kernel is handed: the memory map as the frame
/// allocator left it, sorted; the thread-local template; where the page
/// table maps itself through entry `recursive_index`; the offset of the
/// mapping of physical memory; and the stack canary made from `random`.
pub fn assemble_boot_info(
    memory_map: Vec<MemoryRegion>,
    tls_template: Option<TlsTemplate>,
    recursive_index: u16,
    physical_memory_offset: u64,
    random: u64,
) -> (r: BootInfo)
    requires
        recursive_index < 512,
    ensures
        r.memory_map@.to_multiset() == memory_map@.to_multiset(),
        regions_sorted(r.memory_map@),
        memory_map@.contains(frame_zero_region()) ==> r.memory_map@.contains(frame_zero_region()),
        r.tls_template == tls_template,
        r.recursive_page_table_addr == recursive_addr(recursive_index as int),
        r.physical_memory_offset == physical_memory_offset,
        r.rand_stack_guard == random & 0xffff_ffff_ffff_ff00,
        r.rand_stack_guard % 256 == 0,
{
    let mut map = memory_map;
    sort_memory_map(&mut map);
    proof {
        vstd::seq_lib::to_multiset_contains(memory_map@, frame_zero_region());
        vstd::seq_lib::to_multiset_contains(map@, frame_zero_region());
    }
    BootInfo {
        memory_map: map,
        tls_template,
        recursive_page_table_addr: recursive_table_addr(recursive_index),
        physical_memory_offset,
        rand_stack_guard: stack_guard(random),
    }
}

/// The frames the bootloader keeps from the frame allocator when it boots
/// from the BIOS: the kernel image, the page tables, the bootloader itself
/// and frame zero.
pub fn reserved_boot_regions(
    kernel_start: u64,
    kernel_len: u64,
    page_table_start: u64,
    page_table_end: u64,
    bootloader_start: u64,
    bootloader_end: u64,
) -> (r: Vec<MemoryRegion>)
    requires
        kernel_len > 0,
        kernel_start + kernel_len <= u64::MAX,
        page_table_start < page_table_end,
        bootloader_start < bootloader_end,
    ensures
        r@ == seq![
            MemoryRegion {
                range: FrameRange {
                    start_frame_number: kernel_start / 4096,
                    end_frame_number: ((kernel_start + kernel_len - 1) / 4096 + 1) as u64,
                },
                region_type: MemoryRegionType::Kernel,
            },
            MemoryRegion {
                range: FrameRange {
                    start_frame_number: page_table_start / 4096,
                    end_frame_number: ((page_table_end - 1) / 4096 + 1) as u64,
                },
                region_type: MemoryRegionType::PageTable,
            },
            MemoryRegion {
                range: FrameRange {
                    start_frame_number: bootloader_start / 4096,
                    end_frame_number: ((bootloader_end - 1) / 4096 + 1) as u64,
                },
                region_type: MemoryRegionType::Bootloader,
            },
            MemoryRegion {
                range: FrameRange { start_frame_number: 0, end_frame_number: 1 },
                region_type: MemoryRegionType::FrameZero,
            },
        ],
{
    let mut r: Vec<MemoryRegion> = Vec::new();
    r.push(MemoryRegion { range: frames_of(kernel_start, kernel_start + kernel_len), region_type: MemoryRegionType::Kernel });
    r.push(MemoryRegion { range: frames_of(page_table_start, page_table_end), region_type: MemoryRegionType::PageTable });
    r.push(MemoryRegion { range: frames_of(bootloader_start, bootloader_end), region_type: MemoryRegionType::Bootloader });
    r.push(MemoryRegion {
        range: FrameRange { start_frame_number: 0, end_frame_number: 1 },
        region_type: MemoryRegionType::FrameZero,
    });
    r
}

/// The 2 MiB pages that the identity mapping of the kernel image used, first
/// and last (inclusive), which the bootloader unmaps once the kernel is mapped.
pub fn kernel_identity_pages(kernel_start: u64, kernel_len: u64) -> (r: (u64, u64))
    requires
        kernel_len > 0,
        kernel_start + kernel_len <= u64::MAX,
    ensures
        r.0 == kernel_start - kernel_start % 0x20_0000,
        r.1 == (kernel_start + kernel_len - 1) - (kernel_start + kernel_len - 1) % 0x20_0000,
{
    let last = kernel_start + kernel_len - 1;
    (kernel_start - kernel_start % 0x20_0000, last - last % 0x20_0000)
}

/// An entry of the firmware's configuration table: the identifier of the
/// table it points to, written as one 128-bit number in its textual order,
/// and the table's physical address.
#[derive(Clone, Copy, Debug, PartialEq, Eq, Structural)]
pub struct ConfigEntry {
    pub guid: u128,
    pub address: u64,
}

/// The ACPI 2.0 root table identifier, 8868e871-e4f1-11d3-bc22-0080c73c8881.
pub const ACPI2_GUID: u128 = 0x8868e871_e4f1_11d3_bc22_0080c73c8881u128;
/// The ACPI 1.0 root table identifier, eb9d2d30-2d88-11d3-9a16-0090273fc14d.
pub const ACPI_GUID: u128 = 0xeb9d2d30_2d88_11d3_9a16_0090273fc14du128;

/// The address of the first entry with the identifier `guid`.
pub open spec fn first_with_guid(entries: Seq<ConfigEntry>, guid: u128) -> Option<u64>
    decreases entries.len(),
{
    if entries.len() == 0 {
        None
    } else if entries[0].guid == guid {
        Some(entries[0].address)
    } else {
        first_with_guid(entries.drop_first(), guid)
    }
}

fn find_guid(entries: &[ConfigEntry], guid: u128) -> (r: Option<u64>)
    ensures
        r == first_with_guid(entries@, guid),
{
    let mut i: usize = 0;
    proof {
        assert(entries@.skip(0) =~= entries@);
    }
    while i < entries.len()
        invariant
            i <= entries@.len(),
            first_with_guid(entries@, guid) == first_with_guid(entries@.skip(i as int), guid),
        decreases entries@.len() - i,
    {
        proof {
            assert(entries@.skip(i as int).drop_first() =~= entries@.skip(i + 1));
        }
        if entries[i].guid == guid {
            return Some(entries[i].address);
        }
        i = i + 1;
    }
    proof {
        assert(entries@.skip(i as int).len() == 0);
    }
    None
}

/// Where the ACPI root table is: the ACPI 2.0 entry of the configuration
/// table if there is one, else the ACPI 1.0 entry.
pub fn find_rsdp(entries: &[ConfigEntry]) -> (r: Option<u64>)
    ensures
        r == match first_with_guid(entries@, ACPI2_GUID) {
            Some(a) => Some(a),
            None => first_with_guid(entries@, ACPI_GUID),
        },
{
    match find_guid(entries, ACPI2_GUID) {
        Some(a) => Some(a),
        None => find_guid(entries, ACPI_GUID),
    }
}

/// Why the bootloader cannot go on.
#[derive(Debug)]
pub enum BootError {
    /// The memory map has no region.
    NoMemory,
    /// The kernel image cannot be read.
    Image(KernelImageError),
    /// The kernel's segments or stack cannot be mapped.
    Mapping(MapKernelError),
}

/// What the bootloader decides before it jumps to the kernel: the top of
/// physical memory, the kernel image, the mappings of the kernel and of its
/// stack, and what is handed to the kernel.
pub struct BootPlan {
    pub max_phys_addr: u64,
    pub image: KernelImage,
    pub kernel: KernelPlan,
    pub boot_info: BootInfo,
}

/// Plans the boot from the kernel image `kernel` and the memory map: the top
/// of physical memory, the image's program headers, the kernel's mappings
/// with a stack of `stack_pages` pages above the guard page `stack_page`,
/// and the boot information (the map sorted, the thread-local template,
/// the recursive table at `recursive_index`, the offset of the physical
/// memory mapping, the stack canary made from `random`). `memory_map` is
/// the map as the frame allocator left it.
pub fn plan_boot(
    kernel: &[u8],
    memory_map: Vec<MemoryRegion>,
    stack_page: u64,
    stack_pages: u64,
    recursive_index: u16,
    physical_memory_offset: u64,
    random: u64,
) -> (r: Result<BootPlan, BootError>)
    requires
        forall|i: int| 0 <= i < memory_map@.len() ==> (#[trigger] memory_map@[i]).range.end_frame_number
            <= MAX_PHYS_FRAME_NUMBER,
        stack_page % 4096 == 0,
        recursive_index < 512,
    ensures
        match max_end_addr(memory_map@) {
            None => r matches Err(BootError::NoMemory),
            Some(m) => match r {
                Err(BootError::NoMemory) => false,
                Err(BootError::Image(e)) => e is MisalignedImage || kernel_image_outcome(kernel@, Err(e)),
                Err(BootError::Mapping(e)) => exists|img: KernelImage|
                    kernel_image_outcome(kernel@, Ok(img)) && kernel_mapped(
                        img.segments@,
                        kernel@.len() as int,
                        stack_page as int,
                        stack_pages as int,
                        Err(e),
                    ),
                Ok(p) => {
                    &&& p.max_phys_addr == m
                    &&& kernel_image_outcome(kernel@, Ok(p.image))
                    &&& kernel_mapped(
                        p.image.segments@,
                        kernel@.len() as int,
                        stack_page as int,
                        stack_pages as int,
                        Ok(p.kernel),
                    )
                    &&& p.boot_info.memory_map@.to_multiset() == memory_map@.to_multiset()
                    &&& regions_sorted(p.boot_info.memory_map@)
                    &&& memory_map@.contains(frame_zero_region()) ==> p.boot_info.memory_map@.contains(
                        frame_zero_region(),
                    )
                    &&& p.boot_info.tls_template == p.kernel.info.tls_segment
                    &&& p.boot_info.recursive_page_table_addr == recursive_addr(recursive_index as int)
                    &&& p.boot_info.physical_memory_offset == physical_memory_offset
                    &&& p.boot_info.rand_stack_guard == random & 0xffff_ffff_ffff_ff00
                },
            },
        },
{
    let max = match max_phys_addr(&memory_map) {
        Some(m) => m,
        None => return Err(BootError::NoMemory),
    };
    let image = match read_kernel_image(kernel) {
        Ok(i) => i,
        Err(e) => return Err(BootError::Image(e)),
    };
    let plan = match map_kernel(&image.segments, kernel.len(), stack_page, stack_pages) {
        Ok(p) => p,
        Err(e) => {
            proof {
                assert(kernel_image_outcome(kernel@, Ok(image)));
            }
            return Err(BootError::Mapping(e));
        },
    };
    let tls = plan.info.tls_segment;
    let boot_info = assemble_boot_info(memory_map, tls, recursive_index, physical_memory_offset, random);
    Ok(BootPlan { max_phys_addr: max, image, kernel: plan, boot_info })
}

} // verus!
