use kernel::abi::{DirChild, Stat, StatMode, CREATE_FILE, READABLE, WRITABLE};
use kernel::ahci::{get_port_type, implemented_ports, split_address, timeout_ticks, wait_with_timeout, SataType, WaitStep};
use kernel::apic::{irq_to_gsi, lapic_id_of, pit_count, route_writes, SourceOverride};
use kernel::backtrace::{current_process_stack_bounds, kernel_stack_range};
use kernel::device::Devices;
use kernel::fileops::{init_fd_list, process_close_file, process_fstat, process_open_file, process_read, process_write};
use kernel::interrupts::{fault_cause, interrupt_vector, is_from_userspace, ErrorCause, InterruptIndex, Ticks};
use kernel::paging::{pml4_index, MmioSpace};
use kernel::printer::{char_pixels, glyph_index, pixel_bytes, pixel_offset, write_string, FramebufferInfo, PixelFormat, Placed};
use kernel::process::{FxState, Process};
use kernel::rootfs::fs_create_root_node;
use kernel::rtc::{bcd_to_binary, convert_rtc, RTCTime};
use kernel::symbols::{lookup_symbol, KernelSymbol};
use kernel::syscall::{get_arg, open_mode, syscall_return};
use kernel::tar::TarInitrd;
use kernel::vfs::{DeviceKind, FileError, Vfs};
use kernel::vga::{CursorMove, Writer};
use kernel::keyboard::{handle_key, keyboard_interrupt, KeyInput, Keyboard};
use kernel::ringbuf::RingBuf;
use kernel::scheduler::Scheduler;
use kernel::rootfs::InitrdError;

fn fs_with_devices() -> Vfs {
    let mut fs = Vfs::new();
    let dev = fs.new_dir();
    assert!(fs.add_inode("/dev", dev).is_ok());
    let out = fs.new_device(DeviceKind::Stdout);
    assert!(fs.add_inode("/dev/stdout", out).is_ok());
    let err = fs.new_device(DeviceKind::Stderr);
    assert!(fs.add_inode("/dev/stderr", err).is_ok());
    let inp = fs.new_device(DeviceKind::Stdin);
    assert!(fs.add_inode("/dev/stdin", inp).is_ok());
    fs
}

fn new_process(fs: &mut Vfs) -> Process {
    let fds = init_fd_list(fs).ok().unwrap();
    Process::new_user("/".to_string(), None, 0x1000, fds, FxState::new())
}

#[test]
fn memory_file_reads_back_what_was_written() {
    let mut fs = Vfs::new();
    let mut devices = Devices::new();
    let n = fs.new_mem_file();
    assert!(fs.add_inode("/notes", n).is_ok());
    assert!(matches!(fs.file_stat("/notes"), Ok(Stat { mode: StatMode::File { size: 0 } })));
    assert_eq!(fs.write_at(n, 0, b"abc", &mut devices).ok(), Some(3));
    assert_eq!(fs.write_at(n, 5, b"z", &mut devices).ok(), Some(1));
    assert!(matches!(fs.file_stat("/notes"), Ok(Stat { mode: StatMode::File { size: 6 } })));
    let mut out = [0xffu8; 8];
    assert_eq!(fs.read_at(n, 0, &mut out, &mut devices).ok(), Some(6));
    assert_eq!(&out[..6], b"abc\0\0z");
    let mut tail = [0u8; 4];
    assert_eq!(fs.read_at(n, 4, &mut tail, &mut devices).ok(), Some(2));
    assert_eq!(&tail[..2], b"\0z");
    assert_eq!(fs.read_at(n, 10, &mut tail, &mut devices).ok(), Some(0));
}

#[test]
fn tree_errors() {
    let mut fs = Vfs::new();
    let n = fs.new_mem_file();
    assert!(fs.add_inode("/a", n).is_ok());
    let m = fs.new_mem_file();
    assert!(matches!(fs.add_inode("/a", m), Err(FileError::FileAlreadyExists { .. })));
    assert!(matches!(fs.add_inode("/missing/b", m), Err(FileError::DirPathNotFound { .. })));
    assert!(matches!(fs.add_inode("/a/b", m), Err(FileError::DirExpected { .. })));
    assert!(matches!(fs.file_stat("/nothing"), Err(FileError::FileNotFound { .. })));
    assert!(matches!(fs.file_stat("/"), Ok(Stat { mode: StatMode::Directory })));
    assert_eq!(fs.get_inode("/").ok(), Some(0));
    assert_eq!(fs.get_inode("/a").ok(), Some(n));
}

#[test]
fn tree_with_parents_made_on_the_way() {
    let mut fs = Vfs::new();
    let n = fs.new_mem_file();
    assert_eq!(fs.node_count(), 2);
    assert!(fs.add_inode_to_vfs_tree("/x/y/z", n, true).is_ok());
    assert!(matches!(fs.file_stat("/x/y"), Ok(Stat { mode: StatMode::Directory })));
    assert_eq!(fs.get_inode("/x/y/z").ok(), Some(n));
    assert_eq!(fs.node_count(), 4);
    assert_eq!(fs.get_inode("/x").ok(), Some(2));
    assert_eq!(fs.get_inode("/x/y").ok(), Some(3));
    let m = fs.new_mem_file();
    assert!(fs.add_inode_to_vfs_tree("/x/w/v", m, true).is_ok());
    assert_eq!(fs.get_inode("/x/w").ok(), Some(5));
}

#[test]
fn directory_listing_is_sorted() {
    let mut fs = Vfs::new();
    for name in ["/b", "/a", "/c"] {
        let n = fs.new_mem_file();
        assert!(fs.add_inode(name, n).is_ok());
    }
    let d = fs.new_dir();
    assert!(fs.add_inode("/d", d).is_ok());
    let mut out = [DirChild::zeroed(); 8];
    assert_eq!(fs.read_dir_children(0, 0, &mut out).ok(), Some(4));
    let names: Vec<u8> = out[..4].iter().map(|c| c.name[0]).collect();
    assert_eq!(names, b"abcd".to_vec());
    assert_eq!(out[3].kind, kernel::abi::DIRENT_DIR);
    assert_eq!(out[0].name_len, 1);
    let mut rest = [DirChild::zeroed(); 8];
    assert_eq!(fs.read_dir_children(0, 2, &mut rest).ok(), Some(2));
    assert_eq!(rest[0].name[0], b'c');
}

fn archive_entry(archive: &mut [u8], at: usize, name: &[u8], size_field: &[u8; 12], typeflag: u8) {
    archive[at..at + name.len()].copy_from_slice(name);
    archive[at + 100..at + 108].copy_from_slice(b"0000644\0");
    archive[at + 124..at + 136].copy_from_slice(size_field);
    archive[at + 156] = typeflag;
}

#[test]
fn root_file_system_from_archive() {
    let mut archive = vec![0u8; 3072];
    archive_entry(&mut archive, 0, b"./bin/", b"00000000000\0", b'5');
    archive_entry(&mut archive, 512, b"./bin/init", b"00000000003\0", b'0');
    archive[1024..1027].copy_from_slice(b"elf");
    let tar = TarInitrd::new(&archive).ok().unwrap();
    assert_eq!(tar.header_count(), 2);
    let fs = fs_create_root_node(&tar).ok().unwrap();
    assert!(matches!(fs.file_stat("/bin"), Ok(Stat { mode: StatMode::Directory })));
    assert!(matches!(fs.file_stat("/bin/init"), Ok(Stat { mode: StatMode::File { size: 3 } })));
    assert!(matches!(fs.file_stat("/dev/stdout"), Ok(Stat { mode: StatMode::Device })));
    let n = fs.get_inode("/bin/init").ok().unwrap();
    assert_eq!(fs.read_entire_file_in_mem(n).ok(), Some(b"elf".to_vec()));
    assert_eq!(
        kernel::syscall::exec_file_content(&fs, "/bin", "init"),
        Some(b"elf".to_vec())
    );
    assert_eq!(kernel::syscall::exec_file_content(&fs, "/", "nothing"), None);
}

#[test]
fn new_process_needs_all_three_devices() {
    let mut archive = vec![0u8; 2048];
    archive_entry(&mut archive, 0, b"./init", b"00000000001\0", b'0');
    let tar = TarInitrd::new(&archive).ok().unwrap();
    let mut fs = fs_create_root_node(&tar).ok().unwrap();
    assert!(init_fd_list(&mut fs).is_err());
    let mut full = fs_with_devices();
    let fds = init_fd_list(&mut full).ok().unwrap();
    assert_eq!(fds.len(), 3);
    assert!(fds.iter().all(|s| s.generation == 1));
    assert!(fds[2].opened_file.unwrap().readable);
    assert!(!fds[0].opened_file.unwrap().readable);
}

#[test]
fn process_files_open_write_read_close() {
    let mut fs = fs_with_devices();
    let mut devices = Devices::new();
    let mut p = new_process(&mut fs);
    assert_eq!(p.free_fd_nb, 0);
    assert!(process_open_file(&mut fs, &mut p, "missing", true, false, false).is_none());
    let fd = process_open_file(&mut fs, &mut p, "data.txt", true, true, true).unwrap();
    assert_eq!(fd.get_idx(), 3);
    assert_eq!(process_write(&mut fs, &mut p, fd, b"hello", &mut devices).ok(), Some(5));
    assert!(matches!(process_fstat(&fs, &p, fd), Ok(Stat { mode: StatMode::File { size: 5 } })));
    assert_eq!(process_close_file(&mut p, fd), Some(()));
    assert_eq!(process_close_file(&mut p, fd), None);
    let again = process_open_file(&mut fs, &mut p, "/data.txt", true, false, false).unwrap();
    let mut buf = [0u8; 16];
    assert_eq!(process_read(&fs, &mut p, again, &mut buf, &mut devices).ok(), Some(5));
    assert_eq!(&buf[..5], b"hello");
    assert!(matches!(
        process_write(&mut fs, &mut p, again, b"x", &mut devices),
        Err(FileError::NotWritableFile)
    ));
}

#[test]
fn writing_to_standard_output_shows_on_the_console() {
    let mut fs = fs_with_devices();
    let mut devices = Devices::new();
    let mut p = new_process(&mut fs);
    let stdout = kernel::abi::stdout_fd();
    assert_eq!(process_write(&mut fs, &mut p, stdout, b"ok", &mut devices).ok(), Some(2));
    assert_eq!(devices.console.buffer.read_char(0, 0).ascii_character, b'o');
    assert_eq!(devices.console.buffer.read_char(0, 1).ascii_character, b'k');
    let stdin = kernel::abi::stdin_fd();
    let mut buf = [0u8; 4];
    assert!(matches!(process_read(&fs, &mut p, stdin, &mut buf, &mut devices), Err(FileError::NoDataYet)));
    devices.keyboard.push(b'q');
    assert_eq!(process_read(&fs, &mut p, stdin, &mut buf, &mut devices).ok(), Some(1));
    assert_eq!(buf[0], b'q');
}

#[test]
fn console_prints_and_clears() {
    let mut w = Writer::new();
    w.write_string("hi");
    assert_eq!(w.buffer.read_char(0, 0).ascii_character, b'h');
    assert_eq!(w.buffer.read_char(0, 1).ascii_character, b'i');
    assert_eq!(w.get_col(), 2);
    w.write_string("\n");
    assert_eq!((w.get_row(), w.get_col()), (1, 0));
    w.write_bytes(b"\x1b[31mR");
    assert_eq!(w.buffer.read_char(1, 0).color_code.0 & 0x0f, 4);
    w.write_bytes(b"\x1b[2J");
    assert_eq!(w.buffer.read_char(0, 0).ascii_character, b' ');
    assert_eq!((w.get_row(), w.get_col()), (0, 0));
    w.write_string("ab");
    w.remove_last_char();
    assert_eq!(w.get_col(), 1);
    assert_eq!(w.buffer.read_char(0, 1).ascii_character, b' ');
}

#[test]
fn console_cursor_moves() {
    let mut w = Writer::new();
    w.write_string("abc");
    assert_eq!(w.cursor_offset(), 3);
    w.move_cursor_by(CursorMove::Left, 2);
    assert_eq!(w.cursor_offset(), 1);
    w.move_cursor_by(CursorMove::Left, 5);
    assert_eq!(w.cursor_offset(), 0);
    w.move_cursor(CursorMove::Right);
    assert_eq!(w.cursor_offset(), 1);
    w.move_cursor_by(CursorMove::Right, 5000);
    assert_eq!(w.cursor_offset(), 1999);
}

#[test]
fn framebuffer_pixels() {
    let fb = FramebufferInfo { addr: 0, size: 16 * 10 * 4, width: 10, height: 10, stride: 16, pixel_format: PixelFormat::Bgr };
    assert_eq!(pixel_offset(&fb, 2, 3), Some((3 * 16 + 2) * 4));
    assert_eq!(pixel_offset(&fb, 10, 3), None);
    assert_eq!(pixel_offset(&fb, 2, 10), None);
    let small = FramebufferInfo { size: 100, ..fb };
    assert_eq!(pixel_offset(&small, 9, 9), None);
    assert_eq!(pixel_bytes(PixelFormat::Bgr, 1, 2, 3), Some([3, 2, 1, 0]));
    assert_eq!(pixel_bytes(PixelFormat::Rgb, 1, 2, 3), Some([1, 2, 3, 0]));
    assert_eq!(pixel_bytes(PixelFormat::Other, 1, 2, 3), None);
}

#[test]
fn framebuffer_text_layout() {
    let (placed, x, y) = write_string(32, 24, 0, 0, "ab\ncd");
    assert_eq!(
        placed,
        vec![
            Placed { c: 'a', x: 0, y: 0 },
            Placed { c: 'b', x: 8, y: 0 },
            Placed { c: 'c', x: 0, y: 8 },
            Placed { c: 'd', x: 8, y: 8 },
        ]
    );
    assert_eq!((x, y), (16, 8));
    let (wrapped, x2, y2) = write_string(24, 24, 0, 0, "abc");
    assert_eq!(wrapped.len(), 3);
    assert_eq!((wrapped[1].x, wrapped[1].y), (8, 0));
    assert_eq!((wrapped[2].x, wrapped[2].y), (16, 0));
    assert_eq!((x2, y2), (0, 8));
    let (cut, _, y3) = write_string(32, 16, 0, 0, "a\nb\nc");
    assert_eq!(cut.len(), 2);
    assert_eq!(y3, 16);
}

#[test]
fn framebuffer_glyphs() {
    assert_eq!(glyph_index('A'), 65);
    assert_eq!(glyph_index('é'), 63);
    let pixels = char_pixels('A', 0, 0);
    assert!(pixels.contains(&(2, 0)));
    assert!(pixels.contains(&(3, 0)));
    assert!(!pixels.contains(&(0, 0)));
    assert!(char_pixels(' ', 0, 0).is_empty());
}

#[test]
fn sata_ports() {
    assert_eq!(get_port_type(0x123, 0x0000_0101), Some(SataType::Sata));
    assert_eq!(get_port_type(0x123, 0xEB14_0101), Some(SataType::Satapi));
    assert_eq!(get_port_type(0x101, 0), None);
    assert_eq!(get_port_type(0x120, 0), None);
    assert_eq!(split_address(0x1_2345_6789), (0x2345_6789, 1));
    assert_eq!(implemented_ports(0b1011), vec![0, 1, 3]);
    assert_eq!(timeout_ticks(25, 1000), 25);
    assert_eq!(timeout_ticks(1, 100), 1);
    assert_eq!(wait_with_timeout(true, 0, 100, 10), WaitStep::Done);
    assert_eq!(wait_with_timeout(false, 0, 100, 10), WaitStep::TimedOut);
    assert_eq!(wait_with_timeout(false, 95, 100, 10), WaitStep::Again);
    let cmd = kernel::ahci::identify_command(0x1_2345_6000);
    assert_eq!((cmd.data_base_lower, cmd.data_base_upper, cmd.dbc), (0x2345_6000, 1, 511));
    assert_eq!((cmd.fis_type, cmd.pmport_c, cmd.command), (0x27, 0x80, 0xEC));
    assert_eq!((cmd.header_flags, cmd.prdt_length), (5, 1));
}

#[test]
fn interrupt_controller_values() {
    assert_eq!(lapic_id_of(0x0300_0000), 3);
    let overrides = [
        SourceOverride { isa_source: 0, global_system_interrupt: 2 },
        SourceOverride { isa_source: 0, global_system_interrupt: 9 },
    ];
    assert_eq!(irq_to_gsi(&overrides, 0), 2);
    assert_eq!(irq_to_gsi(&overrides, 1), 1);
    assert_eq!(pit_count(50), 59659);
    assert_eq!(route_writes(3, 0, 0x21, 7), vec![(0x16, 0x1_0021), (0x17, 7 << 24), (0x16, 0x21)]);
    assert_eq!(route_writes(220, 20, 0x22, 1), vec![(0xa0, 0x1_0022), (0xa1, 1 << 24), (0xa0, 0x22)]);
}

#[test]
fn interrupt_vectors_and_faults() {
    assert_eq!(interrupt_vector(InterruptIndex::Timer), 32);
    assert_eq!(interrupt_vector(InterruptIndex::Keyboard), 33);
    assert_eq!(interrupt_vector(InterruptIndex::Spurious), 0xff);
    assert!(is_from_userspace(0x23));
    assert!(!is_from_userspace(0x08));
    assert_eq!(fault_cause(0b11), (true, ErrorCause::Write));
    assert_eq!(fault_cause(0b10000), (false, ErrorCause::Execute));
    assert_eq!(fault_cause(0), (false, ErrorCause::Read));
    let mut t = Ticks::new();
    assert_eq!(t.ticks(), 0);
    t.timer_tick(0x08);
    assert_eq!(t.ticks(), 1);
}

#[test]
fn clock_readings() {
    assert_eq!(bcd_to_binary(0x59), 59);
    let raw = RTCTime { second: 0x30, minute: 0x15, hour: 0x81, day: 0x02, month: 0x12, year: 0x26 };
    let t = convert_rtc(raw, 0x00);
    assert_eq!(t, RTCTime { second: 30, minute: 15, hour: 13, day: 2, month: 12, year: 2026 });
    let binary = RTCTime { second: 5, minute: 6, hour: 7, day: 8, month: 9, year: 25 };
    let t2 = convert_rtc(binary, 0x06);
    assert_eq!(t2, RTCTime { second: 5, minute: 6, hour: 7, day: 8, month: 9, year: 2125 });
}

#[test]
fn symbol_lookup() {
    let symbols = [
        KernelSymbol { addr: 0x100, name: "start" },
        KernelSymbol { addr: 0x200, name: "main" },
        KernelSymbol { addr: 0x300, name: "end" },
    ];
    assert_eq!(lookup_symbol(&symbols, 0x100), None);
    assert_eq!(lookup_symbol(&symbols, 0x101), Some(("start", 0)));
    assert_eq!(lookup_symbol(&symbols, 0x250), Some(("main", 0x4f)));
    assert_eq!(lookup_symbol(&symbols, 0x1000), Some(("end", 0xcff)));
}

#[test]
fn kernel_stacks_and_their_bounds() {
    let (start, end) = kernel_stack_range(2);
    assert_eq!(start, 0xffff_8000_0000_0000 + 2 * 0x9000 + 0x1000);
    assert_eq!(end, start + 0x8000);
    assert_eq!(current_process_stack_bounds(end - 8), Some((start, end)));
    assert_eq!(current_process_stack_bounds(start - 8), None);
    assert_eq!(current_process_stack_bounds(0x1000), None);
}

#[test]
fn paging_helpers() {
    assert_eq!(pml4_index(0xffff_8000_0000_0000), 256);
    assert_eq!(pml4_index(0x1000), 0);
    let mut mmio = MmioSpace::new();
    let first = mmio.alloc_virtual_pages(2).unwrap();
    let second = mmio.alloc_virtual_pages(1).unwrap();
    assert_eq!(second, first + 0x2000);
    assert_eq!(mmio.alloc_virtual_pages(u64::MAX / 4096), None);
}

#[test]
fn system_call_helpers() {
    let mut regs = kernel::process::Registers::new();
    regs.rdi = 1;
    regs.rsi = 2;
    regs.r10 = 4;
    assert_eq!(get_arg(&regs, 1), 1);
    assert_eq!(get_arg(&regs, 2), 2);
    assert_eq!(get_arg(&regs, 4), 4);
    assert_eq!(syscall_return(None), u64::MAX);
    assert_eq!(syscall_return(Some(7)), 7);
    assert_eq!(open_mode(READABLE | CREATE_FILE), (true, false, true));
    assert_eq!(open_mode(WRITABLE), (false, true, false));
}

#[test]
fn keyboard_scancodes_reach_the_input_queue() {
    let mut kb = Keyboard::new();
    let mut queue: RingBuf<u8, 512> = RingBuf::new();
    let mut sched = Scheduler::new();
    keyboard_interrupt(&mut kb.decoder, 0x10, &mut kb.ctrl_down, &mut queue, &mut sched);
    keyboard_interrupt(&mut kb.decoder, 0x90, &mut kb.ctrl_down, &mut queue, &mut sched);
    assert_eq!(queue.pop(), Some(b'a'));
    assert_eq!(queue.pop(), None);
    let mut ctrl = false;
    handle_key(KeyInput::ArrowUp, true, &mut ctrl, &mut queue, &mut sched);
    assert_eq!((queue.pop(), queue.pop(), queue.pop()), (Some(0x1b), Some(b'['), Some(b'A')));
    handle_key(KeyInput::Unicode('é'), true, &mut ctrl, &mut queue, &mut sched);
    assert_eq!((queue.pop(), queue.pop()), (Some(0xc3), Some(0xa9)));
    handle_key(KeyInput::LControl, true, &mut ctrl, &mut queue, &mut sched);
    assert!(ctrl);
    assert_eq!(queue.len(), 0);
}

#[test]
fn archive_entries_the_boot_refuses() {
    let mut link = vec![0u8; 2048];
    archive_entry(&mut link, 0, b"./lnk", b"00000000000\0", b'2');
    let tar = TarInitrd::new(&link).ok().unwrap();
    assert!(matches!(fs_create_root_node(&tar), Err(InitrdError::UnsupportedType(b'2'))));
    let mut root_only = vec![0u8; 2048];
    archive_entry(&mut root_only, 0, b"./", b"00000000000\0", b'5');
    let tar2 = TarInitrd::new(&root_only).ok().unwrap();
    assert!(fs_create_root_node(&tar2).is_ok());
    let mut with_dev = vec![0u8; 2048];
    archive_entry(&mut with_dev, 0, b"./dev/", b"00000000000\0", b'5');
    let tar3 = TarInitrd::new(&with_dev).ok().unwrap();
    assert!(matches!(fs_create_root_node(&tar3), Err(InitrdError::Fs(FileError::FileAlreadyExists { .. }))));
}
