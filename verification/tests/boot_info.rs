use kernel::boot::{assemble_boot_info, recursive_table_addr, sort_memory_map, TlsTemplate};
use kernel::elf_loader::{segment_in_file, SegmentPlan};
use kernel::frame_alloc::{FrameRange, MemoryRegion, MemoryRegionType};
use kernel::process::{FdSlot, FxState, OpenedFile, Process};
use kernel::ringbuf::RingBuf;
use kernel::rtc::RTCTime;

fn region(start: u64, end: u64, region_type: MemoryRegionType) -> MemoryRegion {
    MemoryRegion { range: FrameRange { start_frame_number: start, end_frame_number: end }, region_type }
}

#[test]
fn boot_info_has_a_sorted_map_with_frame_zero() {
    let map = vec![
        region(0x100, 0x200, MemoryRegionType::Usable),
        region(0, 1, MemoryRegionType::FrameZero),
        region(0x10, 0x20, MemoryRegionType::Kernel),
        region(0x10, 0x12, MemoryRegionType::Bootloader),
        region(1, 0x10, MemoryRegionType::Usable),
    ];
    let tls = TlsTemplate { start_addr: 0x1000, mem_size: 0x20, file_size: 0x10 };
    let info = assemble_boot_info(map, Some(tls), 510, 0x1_0000_0000, 0x1234_5678_9abc_def0);
    let starts: Vec<(u64, u64)> =
        info.memory_map.iter().map(|r| (r.range.start_frame_number, r.range.end_frame_number)).collect();
    assert_eq!(starts, vec![(0, 1), (1, 0x10), (0x10, 0x12), (0x10, 0x20), (0x100, 0x200)]);
    assert_eq!(info.memory_map[0].region_type, MemoryRegionType::FrameZero);
    assert_eq!(info.rand_stack_guard, 0x1234_5678_9abc_de00);
    assert_eq!(info.recursive_page_table_addr, recursive_table_addr(510));
    assert_eq!(info.physical_memory_offset, 0x1_0000_0000);
    assert_eq!(info.tls_template, Some(tls));
}

#[test]
fn sorting_an_empty_or_sorted_map_keeps_it() {
    let mut empty: Vec<MemoryRegion> = Vec::new();
    sort_memory_map(&mut empty);
    assert!(empty.is_empty());
    let mut sorted = vec![region(0, 1, MemoryRegionType::FrameZero), region(1, 2, MemoryRegionType::Usable)];
    sort_memory_map(&mut sorted);
    assert_eq!(sorted, vec![region(0, 1, MemoryRegionType::FrameZero), region(1, 2, MemoryRegionType::Usable)]);
}

#[test]
fn clock_time_in_iso_8601() {
    let t = RTCTime { second: 9, minute: 8, hour: 7, day: 5, month: 3, year: 2026 };
    assert_eq!(t.iso8601(), "2026-03-05T07:08:09Z");
    let early = RTCTime { second: 59, minute: 0, hour: 23, day: 31, month: 12, year: 999 };
    assert_eq!(early.iso8601(), "0999-12-31T23:00:59Z");
    let late = RTCTime { second: 0, minute: 0, hour: 0, day: 1, month: 1, year: 12345 };
    assert_eq!(late.iso8601(), "12345-01-01T00:00:00Z");
}

#[test]
fn segment_data_must_lie_in_the_file() {
    let plan = SegmentPlan {
        start_page: 0x20_0000,
        end_page: 0x20_0000,
        flags: 0,
        vaddr: 0x20_0000,
        file_offset: 100,
        file_size: 20,
    };
    assert!(segment_in_file(&plan, 120));
    assert!(!segment_in_file(&plan, 119));
    let huge = SegmentPlan { file_offset: u64::MAX, file_size: 2, ..plan };
    assert!(!segment_in_file(&huge, usize::MAX));
}

#[test]
fn descriptor_room_is_tested_before_opening() {
    let file = OpenedFile { inode: 1, offset: 0, readable: true, writable: false };
    let fds = vec![FdSlot { generation: 1, opened_file: Some(file) }];
    let mut p = Process::new_user("/".to_string(), None, 0, fds, FxState::new());
    assert!(p.has_fd_room());
    p.free_fd_nb = 1;
    assert!(!p.has_fd_room());
    p.fd_list.push(FdSlot { generation: 2, opened_file: None });
    assert!(p.has_fd_room());
}

#[test]
fn ring_buffer_never_holds_more_than_its_capacity() {
    let mut q: RingBuf<u8, 4> = RingBuf::new();
    assert_eq!(q.len(), 0);
    for b in 0..10u8 {
        q.push(b);
        assert!(q.len() <= 4);
    }
    assert_eq!(q.len(), 4);
    assert_eq!(q.pop(), Some(6));
    assert_eq!(q.len(), 3);
}
