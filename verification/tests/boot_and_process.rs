use kernel::boot::{
    boot_segment, frames_of, level4_entries_for, map_kernel, map_segment, max_phys_addr, pages_for,
    kernel_image_from_headers, plan_boot, read_kernel_image, BootError, recursive_table_addr, stack_guard, BootSegment, CopyRange, KernelImageError, MapKernelError,
    SegKind, SegmentAction, SegmentMapping, TlsTemplate,
};
use kernel::elf_loader::{plan_elf, ElfError, PAGE_GLOBAL, PAGE_NO_EXECUTE, PAGE_PRESENT, PAGE_WRITABLE};
use kernel::frame_alloc::{FrameRange, MemoryRegion, MemoryRegionType};
use kernel::process::{FxState, Pid, Process, ProcessKind, ReadyMode, SchedulerState};
use kernel::user_stack::USER_RFLAGS;
use kernel::vga::Writer;
use kernel::boot::{clip_usable_overlaps, find_rsdp, kernel_identity_pages, reserved_boot_regions, ConfigEntry, ACPI2_GUID, ACPI_GUID};
use kernel::interrupts::{fault_description, ErrorCause};
use kernel::rt::BumpHeap;
use kernel::scheduler::{ProcessSlot, Scheduler};
use kernel::syscall::{syscall_kind, SyscallKind};

fn load(vaddr: u64, offset: u64, file_size: u64, mem_size: u64, flags: u32) -> BootSegment {
    boot_segment(SegKind::Load, flags, offset, vaddr, file_size, mem_size)
}

#[test]
fn kernel_segment_mapping_plan() {
    let text = load(0xffff_8000_0010_0010, 0x1000, 0x20, 0x2000, 5);
    let action = map_segment(&text, 0x2000).unwrap();
    assert_eq!(
        action,
        SegmentAction::MapPages(SegmentMapping {
            first_page: 0xffff_8000_0010_0000,
            last_page: 0xffff_8000_0010_2000,
            copy: Some(CopyRange { offset: 0x1000, len: 0x20, dest: 0xffff_8000_0010_0010 }),
            flags: PAGE_PRESENT | PAGE_GLOBAL,
        })
    );
    let data = load(0x40_0000, 0, 0, 0x10, 6);
    match map_segment(&data, 0).unwrap() {
        SegmentAction::MapPages(m) => {
            assert_eq!(m.copy, None);
            assert_eq!(m.flags, PAGE_PRESENT | PAGE_GLOBAL | PAGE_NO_EXECUTE | PAGE_WRITABLE);
            assert_eq!((m.first_page, m.last_page), (0x40_0000, 0x40_0000));
        }
        other => panic!("unexpected {:?}", other),
    }
    assert_eq!(map_segment(&load(0x1000, 0, 0, 0, 4), 0), Ok(SegmentAction::Nothing));
}

#[test]
fn kernel_segment_refusals() {
    assert_eq!(map_segment(&load(0x1000, 0, 0x20, 0x10, 4), 0x100), Err(MapKernelError::FileLargerThanMemory));
    assert_eq!(
        map_segment(&load(0x0000_8000_0000_0000, 0, 0, 0x10, 4), 0),
        Err(MapKernelError::NonCanonicalAddress)
    );
    assert_eq!(
        map_segment(&load(0x0000_7fff_ffff_fff0, 0, 0, 0x20, 4), 0),
        Err(MapKernelError::NonCanonicalAddress)
    );
    assert_eq!(map_segment(&load(0x1000, 0x80, 0x10, 0x10, 4), 0x88), Err(MapKernelError::OutsideImage));
    let bad = boot_segment(SegKind::Invalid, 0, 0, 0, 0, 0);
    assert_eq!(map_segment(&bad, 0), Err(MapKernelError::InvalidSegmentType));
    let tls = boot_segment(SegKind::Tls, 4, 0, 0x5000, 8, 16);
    assert_eq!(
        map_segment(&tls, 0),
        Ok(SegmentAction::Tls(TlsTemplate { start_addr: 0x5000, mem_size: 16, file_size: 8 }))
    );
}

#[test]
fn kernel_mapping_with_stack() {
    let segs = vec![
        load(0x1000, 0, 0x10, 0x10, 5),
        boot_segment(SegKind::Other, 0, 0, 0, 0, 0),
        boot_segment(SegKind::Tls, 4, 0, 0x5000, 8, 16),
    ];
    let plan = map_kernel(&segs, 0x100, 0x10_0000, 4).ok().unwrap();
    assert_eq!(plan.mappings.len(), 1);
    assert_eq!(plan.stack, (0x10_1000, 0x10_5000));
    assert_eq!(plan.info.stack_end, 0x10_5000);
    assert_eq!(plan.info.tls_segment, Some(TlsTemplate { start_addr: 0x5000, mem_size: 16, file_size: 8 }));
    let two_tls = vec![segs[2], segs[2]];
    assert!(matches!(map_kernel(&two_tls, 0x100, 0x10_0000, 4), Err(MapKernelError::MultipleTlsSegments)));
    assert!(matches!(
        map_kernel(&segs, 0x100, 0x0000_7fff_ffff_f000, 4),
        Err(MapKernelError::NonCanonicalAddress)
    ));
}

#[test]
fn boot_figures() {
    let regions = vec![
        MemoryRegion { range: FrameRange { start_frame_number: 0, end_frame_number: 16 }, region_type: MemoryRegionType::Usable },
        MemoryRegion { range: FrameRange { start_frame_number: 16, end_frame_number: 4 }, region_type: MemoryRegionType::Reserved },
        MemoryRegion { range: FrameRange { start_frame_number: 32, end_frame_number: 40 }, region_type: MemoryRegionType::InUse },
    ];
    assert_eq!(max_phys_addr(&regions), Some(40 * 4096));
    assert_eq!(max_phys_addr(&Vec::new()), None);
    assert_eq!(frames_of(0x1234, 0x5001), FrameRange { start_frame_number: 1, end_frame_number: 6 });
    assert_eq!(pages_for(0), 0);
    assert_eq!(pages_for(4096), 1);
    assert_eq!(pages_for(4097), 2);
    assert_eq!(level4_entries_for(1), 1);
    assert_eq!(level4_entries_for(0x80_0000_0000), 1);
    assert_eq!(level4_entries_for(0x80_0000_0001), 2);
    assert_eq!(stack_guard(0x1234_5678_9abc_def0), 0x1234_5678_9abc_de00);
    assert_eq!(recursive_table_addr(1), 0x0000_0080_4020_1000);
    assert_eq!(recursive_table_addr(511), 0xffff_ffff_ffff_f000);
}

#[test]
fn kernel_image_that_is_not_elf64() {
    assert!(matches!(read_kernel_image(&[0u8; 10]), Err(KernelImageError::NotElf64)));
    let mut bytes = vec![0u8; 64];
    bytes[4] = 1;
    assert!(matches!(read_kernel_image(&bytes), Err(KernelImageError::NotElf64)));
    bytes[4] = 2;
    bytes[54] = 56;
    assert!(matches!(read_kernel_image(&bytes), Err(KernelImageError::Parse(_))));
    bytes[56] = 1;
    bytes[32] = 4;
    assert!(matches!(read_kernel_image(&bytes), Err(KernelImageError::MisalignedProgramHeaders)));
    bytes[32] = 64;
    bytes[54] = 60;
    assert!(matches!(read_kernel_image(&bytes), Err(KernelImageError::MisalignedProgramHeaders)));
}

fn put(b: &mut Vec<u8>, v: u64, n: usize) {
    b.extend_from_slice(&v.to_le_bytes()[..n]);
}

/// A 64-bit executable whose one program header loads 120 bytes at 0x20_0000.
fn small_kernel() -> Vec<u8> {
    let mut b = vec![0x7f, b'E', b'L', b'F', 2, 1, 1, 0, 0, 0, 0, 0, 0, 0, 0, 0];
    put(&mut b, 2, 2);
    put(&mut b, 0x3e, 2);
    put(&mut b, 1, 4);
    put(&mut b, 0x20_1000, 8);
    put(&mut b, 64, 8);
    put(&mut b, 0, 8);
    put(&mut b, 0, 4);
    put(&mut b, 64, 2);
    put(&mut b, 56, 2);
    put(&mut b, 1, 2);
    put(&mut b, 64, 2);
    put(&mut b, 0, 2);
    put(&mut b, 0, 2);
    put(&mut b, 1, 4);
    put(&mut b, 5, 4);
    put(&mut b, 0, 8);
    put(&mut b, 0x20_0000, 8);
    put(&mut b, 0x20_0000, 8);
    put(&mut b, 120, 8);
    put(&mut b, 0x2000, 8);
    put(&mut b, 0x1000, 8);
    b
}

#[test]
fn kernel_image_with_one_segment() {
    let bytes = small_kernel();
    let img = read_kernel_image(&bytes).unwrap();
    assert_eq!(img.entry, 0x20_1000);
    assert_eq!(img.segments, vec![BootSegment {
        kind: SegKind::Load,
        flags: 5,
        offset: 0,
        vaddr: 0x20_0000,
        file_size: 120,
        mem_size: 0x2000,
    }]);
    let mut shifted = vec![0u8];
    shifted.extend_from_slice(&bytes);
    assert!(matches!(read_kernel_image(&shifted[1..]), Err(KernelImageError::MisalignedImage)));
}

#[test]
fn kernel_image_without_program_headers() {
    let mut bytes = small_kernel();
    bytes.truncate(64);
    bytes[32] = 0;
    bytes[54] = 0;
    bytes[56] = 0;
    let img = read_kernel_image(&bytes).unwrap();
    assert_eq!(img.entry, 0x20_1000);
    assert!(img.segments.is_empty());
}

#[test]
fn kernel_headers_taken_in_order() {
    let seg = BootSegment { kind: SegKind::Load, flags: 4, offset: 0, vaddr: 0x1000, file_size: 1, mem_size: 1 };
    let img = kernel_image_from_headers(7, &vec![Some(seg), Some(seg)]).unwrap();
    assert_eq!((img.entry, img.segments.len()), (7, 2));
    assert!(matches!(kernel_image_from_headers(7, &vec![Some(seg), None]), Err(KernelImageError::Elf32Segment)));
    let many = vec![Some(seg); 33];
    assert!(matches!(kernel_image_from_headers(7, &many), Err(KernelImageError::TooManySegments)));
    let mut late = vec![Some(seg); 32];
    late.push(None);
    assert!(matches!(kernel_image_from_headers(7, &late), Err(KernelImageError::Elf32Segment)));
}

#[test]
fn user_program_that_is_not_elf() {
    assert!(matches!(plan_elf(b"not an executable"), Err(ElfError::ElfParsingErr(_))));
}

#[test]
fn console_refuses_cursor_home() {
    let w = Writer::new();
    assert!(w.accepts(b"plain text\n"));
    assert!(!w.accepts(b"\x1b[H"));
    assert!(w.accepts(b"\x1b[2J"));
    let mut w2 = Writer::new();
    assert!(w2.try_write_bytes(b"ab"));
    assert_eq!(w2.get_col(), 2);
    assert!(!w2.try_write_bytes(b"c\x1b[H"));
    assert_eq!(w2.get_col(), 3);
}

#[test]
fn idle_and_user_processes() {
    let idle = Process::new_idle(Pid::new(1, 1), 0x9000, 0x1000, FxState::new());
    assert_eq!(idle.kernel_context.rsp, 0x9000 - 8);
    assert_eq!(idle.state, SchedulerState::Ready(ReadyMode::Kernel));
    assert_eq!(idle.process_kind, ProcessKind::Kernel);
    let mut user = Process::new_user("/home".to_string(), Some(Pid::new(1, 1)), 0x2000, Vec::new(), FxState::new());
    assert_eq!(user.state, SchedulerState::Loading);
    assert_eq!(user.heap_start, user.heap_break);
    user.init_process(0x20_1000, 0x7fff_ffff_ef00, 0x20, 0x18);
    assert_eq!(user.saved_regs.rip, 0x20_1000);
    assert_eq!(user.saved_regs.rsp, 0x7fff_ffff_ef00);
    assert_eq!(user.saved_regs.cs, 0x23);
    assert_eq!(user.saved_regs.ss, 0x1b);
    assert_eq!(user.saved_regs.rflags, USER_RFLAGS);
    assert_eq!(user.state, SchedulerState::Ready(ReadyMode::User));
    assert_eq!(user.cwd_path, "/home");
}

fn region(start: u64, end: u64, t: MemoryRegionType) -> MemoryRegion {
    MemoryRegion { range: FrameRange { start_frame_number: start, end_frame_number: end }, region_type: t }
}

#[test]
fn memory_map_overlaps_are_clipped() {
    let mut map = vec![
        region(0, 10, MemoryRegionType::Usable),
        region(8, 12, MemoryRegionType::Reserved),
        region(11, 20, MemoryRegionType::Reserved),
        region(20, 30, MemoryRegionType::Usable),
    ];
    clip_usable_overlaps(&mut map);
    assert_eq!(map[0], region(0, 8, MemoryRegionType::Usable));
    assert_eq!(map[1], region(8, 12, MemoryRegionType::Reserved));
    assert_eq!(map[2], region(11, 20, MemoryRegionType::Reserved));
    assert_eq!(map[3], region(20, 30, MemoryRegionType::Usable));
}

#[test]
fn regions_kept_at_boot() {
    let r = reserved_boot_regions(0x40_0000, 0x1001, 0x1000, 0x5000, 0x7c00, 0x9000);
    assert_eq!(r[0], region(0x400, 0x402, MemoryRegionType::Kernel));
    assert_eq!(r[1], region(1, 5, MemoryRegionType::PageTable));
    assert_eq!(r[2], region(7, 9, MemoryRegionType::Bootloader));
    assert_eq!(r[3], region(0, 1, MemoryRegionType::FrameZero));
    assert_eq!(kernel_identity_pages(0x40_0000, 0x30_0000), (0x40_0000, 0x60_0000));
}

#[test]
fn fault_messages() {
    assert_eq!(fault_description(true, ErrorCause::Write), "write to protected memory at ");
    assert_eq!(fault_description(false, ErrorCause::Execute), "execution of unmapped memory at ");
    assert_eq!(fault_description(false, ErrorCause::Read), "read from unmapped memory at ");
}

#[test]
fn system_call_numbers() {
    assert_eq!(syscall_kind(0), Some(SyscallKind::Exit));
    assert_eq!(syscall_kind(14), Some(SyscallKind::Write));
    assert_eq!(syscall_kind(15), Some(SyscallKind::GetRandom));
    assert_eq!(syscall_kind(2), None);
    assert_eq!(syscall_kind(99), None);
}

#[test]
fn first_process_starts() {
    let mut s = Scheduler::new();
    let idle = Process::new_idle(Pid::new(1, 1), 0x9000, 0x1000, FxState::new());
    s.processes.push(ProcessSlot { proc: idle, generation: 1 });
    let mut user = Process::new_user("/".to_string(), None, 0x2000, Vec::new(), FxState::new());
    user.pid = Pid::new(2, 1);
    user.kernel_stack_top = 0x12000;
    user.init_process(0x20_1000, 0x7000, 0x20, 0x18);
    s.processes.push(ProcessSlot { proc: user, generation: 1 });
    assert!(s.start_first_process(Pid::new(3, 1)).is_none());
    assert!(s.current_process.is_none());
    let (pt, top, regs) = s.start_first_process(Pid::new(2, 1)).unwrap();
    assert_eq!((pt, top, regs.rip, regs.rsp), (0x2000, 0x12000, 0x20_1000, 0x7000));
    assert!(s.current_process.unwrap().same(&Pid::new(2, 1)));
    s.processes[1].proc.state = SchedulerState::Loading;
    s.mark_current_as_user();
    assert_eq!(s.processes[1].proc.state, SchedulerState::Ready(ReadyMode::User));
}

#[test]
fn user_heap_hands_out_block_ends() {
    let mut heap = BumpHeap::new();
    assert_eq!(heap.allocate(0x1000, 16, 8), Some(0x1010));
    assert_eq!(heap.allocate(0x1000, 8, 32), Some(0x1028));
    assert_eq!(heap.allocate(0x1000, 0x1_0000, 1), None);
    assert_eq!(heap.allocate(0x1000, 1, 1), Some(0x1029));
}

#[test]
fn acpi_root_table_prefers_version_two() {
    let v1 = ConfigEntry { guid: ACPI_GUID, address: 0x1000 };
    let v2 = ConfigEntry { guid: ACPI2_GUID, address: 0x2000 };
    let other = ConfigEntry { guid: 7, address: 0x3000 };
    assert_eq!(find_rsdp(&[other, v1, v2]), Some(0x2000));
    assert_eq!(find_rsdp(&[other, v1]), Some(0x1000));
    assert_eq!(find_rsdp(&[other]), None);
}

fn ready_user(idx: u32, pt: u64) -> ProcessSlot {
    let mut p = Process::new_user("/".to_string(), Some(Pid::new(1, 1)), pt, Vec::new(), FxState::new());
    p.pid = Pid::new(idx, 1);
    p.kernel_stack_top = pt + 0x8000;
    p.init_process(0x20_0000 + pt, 0x7000, 0x20, 0x18);
    ProcessSlot { proc: p, generation: 1 }
}

#[test]
fn scheduler_round_robin() {
    let mut s = Scheduler::new();
    s.processes.push(ProcessSlot { proc: Process::new_idle(Pid::new(1, 1), 0x9000, 0x1000, FxState::new()), generation: 1 });
    s.processes.push(ready_user(2, 0x2000));
    s.processes.push(ready_user(3, 0x3000));
    s.current_process = Some(Pid::new(2, 1));
    s.runnable_processes.push_back(Pid::new(3, 1));
    let mut regs = kernel::process::Registers::new();
    regs.rip = 0x1234;
    let d = s.schedule(&mut regs);
    assert_eq!(d.load, Some((0x3000, 0xb000)));
    assert!(s.current_process.unwrap().same(&Pid::new(3, 1)));
    assert_eq!(s.runnable_processes.len(), 0);
    assert_eq!(s.processes[1].proc.saved_regs.rip, 0x1234);
    assert_eq!(regs.rip, 0x20_3000);
    let again = s.schedule(&mut regs);
    assert!(again.load.is_none());
    assert!(s.current_process.unwrap().same(&Pid::new(3, 1)));
}

#[test]
fn killing_a_process_wakes_its_waiting_parent() {
    let mut s = Scheduler::new();
    s.processes.push(ProcessSlot { proc: Process::new_idle(Pid::new(1, 1), 0x9000, 0x1000, FxState::new()), generation: 1 });
    s.processes.push(ready_user(2, 0x2000));
    let mut child = ready_user(3, 0x3000);
    child.proc.parent = Some(Pid::new(2, 1));
    s.processes.push(child);
    s.processes[1].proc.state = SchedulerState::WaitPid(Pid::new(3, 1));
    s.current_process = Some(Pid::new(3, 1));
    let d = s.kill_current_and_schedule(7);
    assert_eq!(s.processes[2].proc.state, SchedulerState::Zombie(7));
    assert_eq!(s.processes[1].proc.state, SchedulerState::Ready(ReadyMode::Kernel));
    assert!(s.current_process.unwrap().same(&Pid::new(2, 1)));
    assert_eq!(d.load, Some((0x2000, 0xa000)));
}

#[test]
fn boot_plan_from_image_and_memory_map() {
    let kernel = small_kernel();
    let map = vec![
        MemoryRegion { range: FrameRange { start_frame_number: 1, end_frame_number: 0x100 }, region_type: MemoryRegionType::Usable },
        MemoryRegion { range: FrameRange { start_frame_number: 0, end_frame_number: 1 }, region_type: MemoryRegionType::FrameZero },
    ];
    let stack_page = 0xffff_ff80_0000_0000u64;
    let plan = plan_boot(&kernel, map, stack_page, 2, 510, 0, 0xabcd).unwrap();
    assert_eq!(plan.max_phys_addr, 0x100 * 4096);
    assert_eq!(plan.image.entry, 0x20_1000);
    assert_eq!(plan.kernel.stack, (stack_page + 0x1000, stack_page + 0x3000));
    assert_eq!(plan.kernel.info.stack_end, stack_page + 0x3000);
    assert_eq!(plan.kernel.mappings.len(), 1);
    assert_eq!(plan.boot_info.memory_map[0].region_type, MemoryRegionType::FrameZero);
    assert_eq!(plan.boot_info.rand_stack_guard, 0xab00);
    assert_eq!(plan.boot_info.recursive_page_table_addr, recursive_table_addr(510));
    assert!(matches!(plan_boot(&kernel, Vec::new(), stack_page, 2, 510, 0, 0), Err(BootError::NoMemory)));
    let one = vec![MemoryRegion { range: FrameRange { start_frame_number: 0, end_frame_number: 1 }, region_type: MemoryRegionType::FrameZero }];
    assert!(matches!(plan_boot(&[0u8; 8], one, stack_page, 2, 510, 0, 0), Err(BootError::Image(KernelImageError::NotElf64))));
}
