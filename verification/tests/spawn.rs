use kernel::backtrace::kernel_stack_range;
use kernel::elf_loader::{plan_elf, plan_elf_info, plan_program, segment_of, ElfError, ElfInfo};
use kernel::spawn::{destroy_process_because_err, load_initrd_init, syscall_exec};
use kernel::process::{FxState, Pid, Process, ProcessKind, ReadyMode, SchedulerState};
use kernel::scheduler::{ProcessSlot, Scheduler};
use kernel::user_stack::{USER_RFLAGS, USER_STACK_TOP};
use kernel::vfs::{DeviceKind, Vfs};

fn put16(b: &mut Vec<u8>, v: u16) {
    b.extend_from_slice(&v.to_le_bytes());
}

fn put32(b: &mut Vec<u8>, v: u32) {
    b.extend_from_slice(&v.to_le_bytes());
}

fn put64(b: &mut Vec<u8>, v: u64) {
    b.extend_from_slice(&v.to_le_bytes());
}

/// A static x86-64 executable with one loadable, readable and executable
/// segment at 0x20_0000, entered at 0x20_1000.
fn small_executable() -> Vec<u8> {
    let mut b = vec![0x7f, b'E', b'L', b'F', 2, 1, 1, 0, 0, 0, 0, 0, 0, 0, 0, 0];
    put16(&mut b, 2); // executable
    put16(&mut b, 0x3e); // x86-64
    put32(&mut b, 1);
    put64(&mut b, 0x20_1000); // entry
    put64(&mut b, 64); // program headers
    put64(&mut b, 0); // no section headers
    put32(&mut b, 0);
    put16(&mut b, 64);
    put16(&mut b, 56);
    put16(&mut b, 1);
    put16(&mut b, 64);
    put16(&mut b, 0);
    put16(&mut b, 0);
    put32(&mut b, 1); // loadable
    put32(&mut b, 5); // readable, executable
    put64(&mut b, 0);
    put64(&mut b, 0x20_0000);
    put64(&mut b, 0x20_0000);
    put64(&mut b, 120);
    put64(&mut b, 0x2000);
    put64(&mut b, 0x1000);
    assert_eq!(b.len(), 120);
    b
}

fn boot_fs(init: Vec<u8>) -> Vfs {
    let mut fs = Vfs::new();
    let dev = fs.new_dir();
    fs.add_inode("/dev", dev).unwrap();
    for (path, kind) in [
        ("/dev/stdout", DeviceKind::Stdout),
        ("/dev/stderr", DeviceKind::Stderr),
        ("/dev/stdin", DeviceKind::Stdin),
    ] {
        let n = fs.new_device(kind);
        fs.add_inode(path, n).unwrap();
    }
    let n = fs.new_initrd_file(init);
    fs.add_inode("/init", n).unwrap();
    fs
}

fn scheduler_with_idle() -> Scheduler {
    let mut s = Scheduler::new();
    let (_, top) = kernel_stack_range(0);
    let idle = Process::new_idle(Pid::new(1, 1), top, 0x1000, FxState::new());
    s.processes.push(ProcessSlot { proc: idle, generation: 1 });
    s
}

#[test]
fn init_is_loaded_and_entered() {
    let mut fs = boot_fs(small_executable());
    let mut s = scheduler_with_idle();
    let mut rand = [0u8; 40];
    for (i, b) in rand.iter_mut().enumerate() {
        *b = i as u8;
    }
    let start = load_initrd_init(&mut fs, &mut s, 0x5000, FxState::new(), &rand, 0x20, 0x18).unwrap();
    assert!(start.pid.same(&Pid::new(2, 1)));
    assert_eq!(start.content, small_executable());
    assert_eq!(start.elf.entry, 0x20_1000);
    assert_eq!(start.elf.loads.len(), 1);
    assert_eq!((start.elf.loads[0].start_page, start.elf.loads[0].end_page), (0x20_0000, 0x20_1000));
    assert_eq!(start.stack.arg_addrs, vec![USER_STACK_TOP - 5]);
    assert_eq!(start.stack.rsp, USER_STACK_TOP - 16 - 16 - 48);
    assert_eq!(start.stack.block.len(), 64);
    assert_eq!(&start.stack.block[8..40], &rand[0..32]);
    assert_eq!(start.page_table_phys, 0x5000);
    assert_eq!(start.kernel_stack_top, kernel_stack_range(1).1);
    assert_eq!((start.regs.rip, start.regs.rsp), (0x20_1000, USER_STACK_TOP - 80));
    assert_eq!((start.regs.cs, start.regs.ss, start.regs.rflags), (0x23, 0x1b, USER_RFLAGS));
    assert!(s.current_process.unwrap().same(&start.pid));
    assert_eq!(s.processes.len(), 2);
    let p = &s.processes[1].proc;
    assert_eq!(p.state, SchedulerState::Ready(ReadyMode::User));
    assert_eq!(p.process_kind, ProcessKind::User);
    assert_eq!(p.cwd_path, "/");
    assert_eq!(p.fd_list.len(), 3);
    assert!(p.parent.is_none());
    assert_eq!(p.saved_regs.rip, 0x20_1000);
}

#[test]
fn init_that_is_not_a_program_is_refused() {
    let mut fs = boot_fs(b"#!/bin/sh\n".to_vec());
    let mut s = scheduler_with_idle();
    let r = load_initrd_init(&mut fs, &mut s, 0x5000, FxState::new(), &[0u8; 40], 0x20, 0x18);
    assert!(matches!(r, Err(ElfError::ElfParsingErr(_))));
    assert_eq!(s.processes.len(), 1);
    assert!(s.current_process.is_none());
}

#[test]
fn new_processes_are_children_of_the_running_one() {
    let mut fs = boot_fs(small_executable());
    let mut s = scheduler_with_idle();
    s.current_process = Some(Pid::new(1, 1));
    let pid = Process::empty_process(&mut fs, &mut s, "/bin".to_string(), 0x6000, FxState::new()).unwrap();
    assert!(pid.same(&Pid::new(2, 1)));
    assert_eq!(s.processes[0].proc.children.len(), 1);
    assert!(s.processes[0].proc.children[0].same(&pid));
    let p = &s.processes[1].proc;
    assert!(p.parent.unwrap().same(&Pid::new(1, 1)));
    assert_eq!(p.state, SchedulerState::Loading);
    assert_eq!(p.kernel_stack_top, kernel_stack_range(1).1);
    assert_eq!(p.page_table_phys, 0x6000);
    s.current_process = Some(Pid::new(1, 7));
    assert!(Process::empty_process(&mut fs, &mut s, "/".to_string(), 0x7000, FxState::new()).is_none());
    assert_eq!(s.processes.len(), 3);
    assert!(s.processes[2].proc.pid.same(&Pid::new(3, 1)));
}

#[test]
fn idle_process_takes_the_first_slot() {
    let mut s = Scheduler::new();
    let entry_slot = Process::init_idle_process(&mut s, 0x1000, FxState::new());
    let (_, top) = kernel_stack_range(0);
    assert_eq!(entry_slot, top - 8);
    assert_eq!(s.processes.len(), 1);
    let p = &s.processes[0].proc;
    assert!(p.pid.same(&Pid::new(1, 1)));
    assert_eq!(p.state, SchedulerState::Ready(ReadyMode::Kernel));
    assert_eq!(p.process_kind, ProcessKind::Kernel);
    assert_eq!(p.kernel_context.rsp, top - 8);
    assert_eq!((p.kernel_context.r12, p.kernel_context.r15, p.saved_regs.rip, p.saved_regs.r12), (0, 0, 0, 0));
    assert_eq!(p.page_table_phys, 0x1000);
}

fn running_init() -> (Vfs, Scheduler) {
    let mut fs = boot_fs(small_executable());
    let n = fs.new_initrd_file(b"not a program".to_vec());
    fs.add_inode("/bad", n).unwrap();
    let mut s = scheduler_with_idle();
    load_initrd_init(&mut fs, &mut s, 0x5000, FxState::new(), &[7u8; 40], 0x20, 0x18).unwrap();
    (fs, s)
}

#[test]
fn exec_starts_a_child_of_the_caller() {
    let (mut fs, mut s) = running_init();
    let args = vec![b"init".to_vec(), b"-v".to_vec()];
    let start = syscall_exec(&mut fs, &mut s, "init", &args, 0x8000, FxState::new(), &[1u8; 40], 0x20, 0x18).unwrap();
    assert!(start.pid.same(&Pid::new(3, 1)));
    assert_eq!(start.elf.entry, 0x20_1000);
    assert_eq!(start.stack.arg_addrs, vec![USER_STACK_TOP - 4, USER_STACK_TOP - 6]);
    assert_eq!(start.stack.rsp, USER_STACK_TOP - 16 - 32 - 48);
    let p = &s.processes[2].proc;
    assert_eq!(p.state, SchedulerState::Ready(ReadyMode::User));
    assert!(p.parent.unwrap().same(&Pid::new(2, 1)));
    assert_eq!(p.page_table_phys, 0x8000);
    assert_eq!((p.saved_regs.rip, p.saved_regs.rsp), (0x20_1000, start.stack.rsp));
    assert_eq!(s.processes[1].proc.children.len(), 1);
    assert!(s.processes[1].proc.children[0].same(&start.pid));
    assert_eq!(s.runnable_processes.len(), 1);
    assert!(s.runnable_processes[0].same(&start.pid));
    assert!(s.current_process.unwrap().same(&Pid::new(2, 1)));
}

#[test]
fn exec_of_a_missing_program_changes_nothing() {
    let (mut fs, mut s) = running_init();
    let args = vec![b"nope".to_vec()];
    assert!(syscall_exec(&mut fs, &mut s, "/bin/nope", &args, 0x8000, FxState::new(), &[1u8; 40], 0x20, 0x18).is_none());
    assert_eq!(s.processes.len(), 2);
    assert!(s.processes[1].proc.children.is_empty());
    assert!(s.runnable_processes.is_empty());
}

#[test]
fn exec_of_a_bad_program_leaves_a_dead_slot() {
    let (mut fs, mut s) = running_init();
    let args = vec![b"bad".to_vec()];
    assert!(syscall_exec(&mut fs, &mut s, "/bad", &args, 0x8000, FxState::new(), &[1u8; 40], 0x20, 0x18).is_none());
    assert_eq!(s.processes.len(), 3);
    assert_eq!(s.processes[2].proc.state, SchedulerState::Dead);
    assert!(s.processes[1].proc.children.is_empty());
    assert!(s.runnable_processes.is_empty());
    let start = syscall_exec(&mut fs, &mut s, "/init", &args, 0x9000, FxState::new(), &[1u8; 40], 0x20, 0x18).unwrap();
    assert!(start.pid.same(&Pid::new(4, 1)));
}

#[test]
fn destroying_a_child_swaps_in_the_last_one() {
    let (mut fs, mut s) = running_init();
    let mut pids = Vec::new();
    for pt in [0x10_000u64, 0x11_000, 0x12_000] {
        pids.push(Process::empty_process(&mut fs, &mut s, "/".to_string(), pt, FxState::new()).unwrap());
    }
    assert_eq!(destroy_process_because_err(&mut s, pids[0]), Some(()));
    let children = &s.processes[1].proc.children;
    assert_eq!(children.len(), 2);
    assert!(children[0].same(&pids[2]) && children[1].same(&pids[1]));
    assert_eq!(s.processes[2].proc.state, SchedulerState::Dead);
    assert_eq!(destroy_process_because_err(&mut s, Pid::new(9, 1)), None);
    s.processes[3].proc.parent = Some(Pid::new(2, 5));
    assert_eq!(destroy_process_because_err(&mut s, pids[1]), None);
    assert_eq!(s.processes[3].proc.state, SchedulerState::Loading);
}

#[test]
fn programs_copying_past_their_end_are_refused() {
    let good = small_executable();
    assert!(plan_program(&good).is_ok());
    let mut long = good.clone();
    long[96] = 121;
    assert!(plan_elf(&long).is_ok());
    assert!(matches!(plan_program(&long), Err(ElfError::InvalidElf)));
    let mut fs = boot_fs(long);
    let mut s = scheduler_with_idle();
    let r = load_initrd_init(&mut fs, &mut s, 0x5000, FxState::new(), &[0u8; 40], 0x20, 0x18);
    assert!(matches!(r, Err(ElfError::InvalidElf)));
    assert_eq!(s.processes.len(), 1);
}

#[test]
fn planning_from_parsed_headers() {
    let info = ElfInfo {
        machine: 0x3e,
        elf_type: 2,
        entry: 0x20_1000,
        segments: Some(vec![segment_of(1, 0, 0x20_0000, 120, 0x2000, 5)]),
    };
    let plan = plan_elf_info(&info).unwrap();
    assert_eq!((plan.entry, plan.loads.len(), plan.relro.len()), (0x20_1000, 1, 0));
    let arm = ElfInfo { machine: 0xb7, elf_type: 2, entry: 0x20_1000, segments: None };
    assert!(matches!(plan_elf_info(&arm), Err(ElfError::UnsupportedArch)));
    let no_table = ElfInfo { machine: 0x3e, elf_type: 2, entry: 0x20_1000, segments: None };
    assert!(matches!(plan_elf_info(&no_table), Err(ElfError::SegmentTableNotFound)));
}
