use kernel::abi::{Fd, Stat, StatMode, CREATE_FILE, SHUTDOWN_FAILURE, SHUTDOWN_REBOOT, SHUTDOWN_SUCCESS};
use kernel::align::is_power_of_two;
use kernel::chacha::{chacha20_block, quarter_round, u64_from_le, KernelRng};
use kernel::frame_alloc::{
    init_bitmap_frame_allocator, BootInfoFrameAllocator, FrameRange, MemoryRegion, MemoryRegionType,
};
use kernel::path::canonicalize_path;
use kernel::process::Pid;
use kernel::ringbuf::RingBuf;
use kernel::tar::{parse_octal, TarError, TarInitrd};
use kernel::rt::read_start_block;
use kernel::rt::{StdoutBuffer, WritePlan};
use kernel::rt::{read_buffer, read_entire_file, read_entire_file_size, FileError};
use kernel::rt::{reboot_flags, shutdown_flags, ShutdownResult};
use kernel::syscall::{shutdown_request, ShutdownRequest};
use kernel::user_stack::plan_process_stack;

#[test]
fn fd_round_trips_through_raw_word() {
    let fd = Fd::new(5, 7);
    let raw = fd.into_raw();
    assert_eq!(raw, (7u64 << 32) | 5);
    let back = Fd::from_raw(raw);
    assert_eq!(back.get_idx(), 5);
    assert_eq!(back.get_gen(), 7);
}

#[test]
fn pid_round_trips_and_rejects_index_zero() {
    let pid = Pid::new(3, 9);
    let raw = pid.into_raw();
    assert_eq!(raw, (9u64 << 32) | 3);
    let back = Pid::from_raw(raw).unwrap();
    assert_eq!(back.get_idx(), 3);
    assert_eq!(back.get_gen(), 9);
    assert!(Pid::from_raw(9u64 << 32).is_none());
}

#[test]
fn power_of_two_check() {
    assert!(is_power_of_two(4096));
    assert!(is_power_of_two(1));
    assert!(!is_power_of_two(0));
    assert!(!is_power_of_two(12));
}

#[test]
fn canonical_paths() {
    assert_eq!(canonicalize_path("/a/./b/../c", "/"), Some("/a/c".to_string()));
    assert_eq!(canonicalize_path("x", "/home"), Some("/home/x".to_string()));
    assert_eq!(canonicalize_path("x//y/", "/home/"), Some("/home/x/y".to_string()));
    assert_eq!(canonicalize_path("../../..", "/a"), Some("/".to_string()));
    assert_eq!(canonicalize_path("/", "/anything"), Some("/".to_string()));
    assert_eq!(canonicalize_path("a", "/.."), None);
    assert_eq!(canonicalize_path("/a", "/.."), Some("/a".to_string()));
}

#[test]
fn canonical_path_is_stable() {
    let once = canonicalize_path("b/../c/./d", "/a").unwrap();
    assert_eq!(once, "/a/c/d");
    let twice = canonicalize_path(&once, "/elsewhere").unwrap();
    assert_eq!(twice, once);
}

fn tar_with_one_file() -> Vec<u8> {
    let mut archive = vec![0u8; 2048];
    let name = b"hello.txt";
    archive[..name.len()].copy_from_slice(name);
    archive[100..108].copy_from_slice(b"0000644\0");
    archive[124..136].copy_from_slice(b"00000000005\0");
    archive[156] = b'0';
    archive[512..517].copy_from_slice(b"hello");
    archive
}

#[test]
fn tar_archive_with_one_file() {
    let archive = tar_with_one_file();
    let tar = TarInitrd::new(&archive).ok().unwrap();
    assert_eq!(tar.header_count(), 1);
    let h = tar.header(0);
    assert_eq!(h.get_filename().ok().unwrap(), "hello.txt");
    assert_eq!(h.size().ok().unwrap(), 5);
    assert_eq!(h.get_mode().ok().unwrap(), 0o644);
    assert_eq!(h.get_typeflag(), b'0');
    assert_eq!(h.content().ok().unwrap(), b"hello");
}

#[test]
fn tar_archive_without_end_marker() {
    let archive = vec![b'a'; 512];
    assert!(matches!(TarInitrd::new(&archive), Err(TarError::NoEnd)));
    let empty: Vec<u8> = Vec::new();
    assert!(matches!(TarInitrd::new(&empty), Err(TarError::NoEnd)));
}

#[test]
fn tar_archive_with_bad_size() {
    let mut archive = tar_with_one_file();
    archive[124..136].copy_from_slice(b"0000000000x\0");
    assert!(matches!(TarInitrd::new(&archive), Err(TarError::InvalidOctal)));
}

#[test]
fn octal_fields() {
    assert_eq!(parse_octal(b"0000755\0").ok(), Some(493));
    assert_eq!(parse_octal(b"17 ").ok(), Some(15));
    assert_eq!(parse_octal(b"").ok(), Some(0));
    assert!(matches!(parse_octal(b"12x"), Err(TarError::InvalidOctal)));
}

fn small_bitmap() -> kernel::frame_alloc::BitMapFrameAllocator {
    let regions = vec![
        MemoryRegion {
            range: FrameRange { start_frame_number: 0, end_frame_number: 1 },
            region_type: MemoryRegionType::FrameZero,
        },
        MemoryRegion {
            range: FrameRange { start_frame_number: 1, end_frame_number: 17 },
            region_type: MemoryRegionType::Usable,
        },
    ];
    init_bitmap_frame_allocator(BootInfoFrameAllocator::init(regions))
}

#[test]
fn bitmap_allocator_starts_from_usable_frames() {
    let alloc = small_bitmap();
    assert_eq!(alloc.frame_count(), 17);
    assert!(alloc.is_frame_used(0));
    for i in 1..17 {
        assert!(!alloc.is_frame_used(i));
    }
    assert_eq!(alloc.next_hint(), 1);
}

#[test]
fn bitmap_allocation_then_release_restores_frames() {
    let mut alloc = small_bitmap();
    assert_eq!(alloc.allocate_frame(0x1000), Some(0x1000));
    assert!(alloc.is_frame_used(1));
    assert_eq!(alloc.allocate_contiguous(2, 2), Some(0x2000));
    assert!(alloc.is_frame_used(2) && alloc.is_frame_used(3));
    alloc.deallocate_frame(0x1000, 0x1000);
    assert!(!alloc.is_frame_used(1));
    assert_eq!(alloc.next_hint(), 1);
    assert_eq!(alloc.allocate_frame(0x1000), Some(0x1000));
    alloc.deallocate_frame(0x2000, 0x2000);
    assert!(!alloc.is_frame_used(2) && !alloc.is_frame_used(3));
}

#[test]
fn bitmap_allocation_fails_when_no_run_fits() {
    let mut alloc = small_bitmap();
    assert_eq!(alloc.allocate_contiguous(17, 1), None);
    assert_eq!(alloc.allocate_contiguous(16, 1), Some(0x1000));
    assert_eq!(alloc.allocate_frame(0x1000), None);
    assert_eq!(alloc.allocate_frame(0x20_0000), None);
}

#[test]
fn boot_allocator_hands_out_frames_in_order() {
    let regions = vec![
        MemoryRegion {
            range: FrameRange { start_frame_number: 0, end_frame_number: 2 },
            region_type: MemoryRegionType::Reserved,
        },
        MemoryRegion {
            range: FrameRange { start_frame_number: 2, end_frame_number: 4 },
            region_type: MemoryRegionType::Usable,
        },
    ];
    let mut boot = BootInfoFrameAllocator::init(regions);
    assert_eq!(boot.allocate_frame(0x1000), Some(0x2000));
    assert_eq!(boot.allocate_frame(0x1000), Some(0x3000));
    assert_eq!(boot.allocate_frame(0x1000), None);
}

#[test]
fn chacha_quarter_round_vector() {
    let r = quarter_round(0x11111111, 0x01020304, 0x9b8d6f43, 0x01234567);
    assert_eq!(r, (0xea2a92f4, 0xcb1cf8ce, 0x4581472e, 0x5881c4bb));
}

#[test]
fn chacha_block_of_zero_key() {
    let block = chacha20_block(&[0u8; 32], 0);
    let expected: [u8; 16] = [
        0x76, 0xb8, 0xe0, 0xad, 0xa0, 0xf1, 0x3d, 0x90, 0x40, 0x5d, 0x6a, 0xe5, 0x53, 0x86, 0xbd, 0x28,
    ];
    assert_eq!(&block[..16], &expected[..]);
    let next = chacha20_block(&[0u8; 32], 1);
    let expected_next: [u8; 8] = [0x9f, 0x07, 0xe7, 0xbe, 0x55, 0x51, 0x38, 0x7a];
    assert_eq!(&next[..8], &expected_next[..]);
}

#[test]
fn rng_fill_follows_the_stream() {
    let mut rng = KernelRng::new([0u8; 32]);
    let mut out = [0u8; 16];
    rng.fill(&mut out);
    let block = chacha20_block(&[0u8; 32], 0);
    assert_eq!(&out[..], &block[..16]);
    assert_eq!(u64_from_le(&[1, 0, 0, 0, 0, 0, 0, 1]), 0x0100_0000_0000_0001);
}

#[test]
fn ring_buffer_drops_oldest_when_full() {
    let mut q: RingBuf<u8, 3> = RingBuf::new();
    assert_eq!(q.len(), 0);
    q.push(1);
    q.push(2);
    q.push(3);
    q.push(4);
    assert_eq!(q.len(), 3);
    assert_eq!(q.pop(), Some(2));
    assert_eq!(q.pop(), Some(3));
    q.extend(&[5, 6, 7]);
    assert_eq!(q.pop(), Some(5));
    assert_eq!(q.pop(), Some(6));
    assert_eq!(q.pop(), Some(7));
    assert_eq!(q.pop(), None);
}

#[test]
fn file_creation_mode() {
    assert_eq!(kernel::rt::File::create_mode(1), 1 | CREATE_FILE);
    let f = kernel::rt::File::from_fd(Fd::new(4, 2));
    assert_eq!(f.get_fd().get_idx(), 4);
}

#[test]
fn shutdown_flags_read_back_by_kernel() {
    assert_eq!(shutdown_flags(ShutdownResult::Success), SHUTDOWN_SUCCESS);
    assert_eq!(shutdown_flags(ShutdownResult::Failure), SHUTDOWN_FAILURE);
    assert_eq!(reboot_flags(), SHUTDOWN_REBOOT);
    assert_eq!(
        shutdown_request(shutdown_flags(ShutdownResult::Success)),
        ShutdownRequest::PowerOff { success: true }
    );
    assert_eq!(
        shutdown_request(shutdown_flags(ShutdownResult::Failure)),
        ShutdownRequest::PowerOff { success: false }
    );
    assert_eq!(shutdown_request(reboot_flags()), ShutdownRequest::Reboot);
    assert_eq!(shutdown_request(3), ShutdownRequest::Reboot);
}

#[test]
fn whole_file_read_steps() {
    assert_eq!(read_entire_file_size(None), Err(FileError::FdNotFound));
    assert_eq!(
        read_entire_file_size(Some(Stat { mode: StatMode::Directory })),
        Err(FileError::FileExpected)
    );
    assert_eq!(
        read_entire_file_size(Some(Stat { mode: StatMode::Device })),
        Err(FileError::FileExpected)
    );
    assert_eq!(read_entire_file_size(Some(Stat { mode: StatMode::File { size: 5 } })), Ok(5));
    let buf = read_buffer(5);
    assert!(buf.is_empty());
    assert!(matches!(read_entire_file(5, None, Vec::new()), Err(FileError::ReadError)));
    assert!(matches!(read_entire_file(5, Some(0), Vec::new()), Err(FileError::ReadError)));
    assert_eq!(read_entire_file(0, Some(0), Vec::new()).ok(), Some(Vec::new()));
    assert_eq!(read_entire_file(3, Some(3), vec![1, 2, 3]).ok(), Some(vec![1, 2, 3]));
}

#[test]
fn program_arguments() {
    let args = kernel::rt::Args::new(vec!["/init".to_string(), "-v".to_string()]);
    assert_eq!(args.len(), 2);
    assert_eq!(args.get(0), Some("/init"));
    assert_eq!(args.get(1), Some("-v"));
    assert_eq!(args.get(2), None);
    assert_eq!(args.iter(), vec!["/init", "-v"]);
}

#[test]
fn seed_and_random_word() {
    let bytes: Vec<u8> = (0..40u8).collect();
    let seed = kernel::rt::init_rng_seed(&bytes);
    assert_eq!(&seed[..], &bytes[..32]);
    assert_eq!(kernel::rt::kernel_random_u64([1, 0, 0, 0, 0, 0, 0, 0]), 1);
    assert_eq!(kernel::rt::kernel_random_u64([0, 1, 0, 0, 0, 0, 0, 0]), 256);
}

#[test]
fn stdout_buffer_keeps_bytes_until_a_line_ends() {
    let mut out = StdoutBuffer::new();
    assert!(out.pending().is_empty());
    assert_eq!(out.write_plan(2), WritePlan::Append);
    assert!(!out.append(b"hi"));
    assert_eq!(out.pending(), b"hi".to_vec());
    assert!(out.append(b" there\n"));
    assert_eq!(out.pending(), b"hi there\n".to_vec());
    out.flushed();
    assert!(out.pending().is_empty());
    assert_eq!(out.write_plan(4096), WritePlan::Direct);
    let big = vec![b'x'; 4000];
    assert!(!out.append(&big));
    assert_eq!(out.write_plan(100), WritePlan::FlushThenAppend);
    assert_eq!(out.write_plan(96), WritePlan::Append);
}

#[test]
fn initial_user_stack_reads_back() {
    let mut rand = [0u8; 40];
    for i in 0..40 {
        rand[i] = i as u8 + 1;
    }
    let args = vec![b"/init".to_vec(), b"ab".to_vec()];
    let plan = plan_process_stack(0x1000, &args, &rand);
    assert_eq!(plan.arg_addrs, vec![0x1000 - 5, 0x1000 - 7]);
    assert_eq!(plan.rsp % 16, 0);
    assert_eq!(plan.rsp, 0xff0 - 32 - 48);
    assert_eq!(plan.block.len(), 48 + 32);
    let info = read_start_block(&plan.block).unwrap();
    assert_eq!(info.canary, u64::from_le_bytes([33, 34, 35, 36, 37, 38, 39, 40]));
    assert_eq!(info.seed, rand[..32].to_vec());
    assert_eq!(info.args, vec![(5, 0x1000 - 5), (2, 0x1000 - 7)]);
}

#[test]
fn start_block_that_is_too_short() {
    assert!(read_start_block(&[0u8; 47]).is_none());
    let mut block = vec![0u8; 48];
    block[40] = 1;
    assert!(read_start_block(&block).is_none());
    block.extend_from_slice(&[0u8; 16]);
    let info = read_start_block(&block).unwrap();
    assert_eq!(info.args, vec![(0, 0)]);
}
