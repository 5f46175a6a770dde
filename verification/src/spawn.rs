//! Making processes: the idle process, user processes, the first program
//! (`/init` from the boot archive) and the programs that exec runs, given up
//! when they cannot be loaded. The decisions are made here; copying a
//! program and its stack into memory and entering user mode are left to the
//! caller, which gets them as plans.

use vstd::prelude::*;
use crate::backtrace::{kernel_stack_of, kernel_stack_range, KERNEL_PROC_STACK_BASE, KERNEL_PROC_STACK_SLOT_SIZE};
use crate::elf_loader::{plan_program, plans_program, ElfError, ElfPlan};
use crate::fileops::{init_fd_list, standard_devices_present, standard_fds_of};
use crate::process::{context_cleared, zero_regs, FdSlot, FxState, Pid, Process, ProcessKind, Registers, SchedulerState, USER_HEAP_MAX_ADDR,
    USER_HEAP_START_ADDR};
use crate::scheduler::{slot_of, with_state, ProcessSlot, Scheduler};
use crate::user_stack::{
    arg_addr, block_start, bytes_before, stack_room, start_block, user_entry_regs, StackPlan, USER_STACK_TOP,
    plan_process_stack,
};
use crate::chacha::le64;
use crate::vfs::{FileData, InodeKind, Vfs};
use crate::path::canonical_path;
use crate::syscall::exec_file_content;

verus! {

/// `p` is a user process just made: identifier `pid`, parent `parent`, no
/// children, its kernel stack ending at `kstack`, the page table `pt`, still
/// loading, the descriptors `fds` all in use, the floating-point state `fx`,
/// the working directory `cwd`, an empty heap and a cleared kernel context.
pub open spec fn fresh_user_process(
    p: Process,
    pid: Pid,
    parent: Option<Pid>,
    kstack: u64,
    pt: u64,
    fds: Seq<FdSlot>,
    fx: FxState,
    cwd: Seq<char>,
) -> bool {
    &&& p.pid == pid
    &&& p.parent == parent
    &&& p.children@.len() == 0
    &&& p.kernel_stack_top == kstack
    &&& p.page_table_phys == pt
    &&& p.state == SchedulerState::Loading
    &&& p.process_kind == ProcessKind::User
    &&& p.fd_list@ == fds
    &&& p.free_fd_nb == 0
    &&& p.fxstate == fx
    &&& p.cwd_path@ == cwd
    &&& p.heap_start == USER_HEAP_START_ADDR
    &&& p.heap_break == USER_HEAP_START_ADDR
    &&& p.heap_max == USER_HEAP_MAX_ADDR
    &&& context_cleared(p.kernel_context) && p.kernel_context.rsp == 0
}

/// The identifier of slot `i` in its first generation.
pub open spec fn first_pid_of(p: Pid, i: int) -> bool {
    p.wf() && p.spec_idx() == i + 1 && p.spec_gen() == 1
}

/// `new` is `old` with the children of the process in slot `i` replaced by
/// `children`, and nothing else changed.
pub open spec fn children_set(old: Seq<ProcessSlot>, new: Seq<ProcessSlot>, i: int, children: Seq<Pid>) -> bool {
    &&& new.len() == old.len()
    &&& new[i].proc.children@ == children
    &&& new[i].proc == (Process { children: new[i].proc.children, ..old[i].proc })
    &&& new[i].generation == old[i].generation
    &&& forall|j: int| 0 <= j < old.len() && j != i ==> new[j] == old[j]
}

/// `new` is `old` with `child` added to the children of the process in
/// slot `i`, and nothing else changed.
pub open spec fn child_added(old: Seq<ProcessSlot>, new: Seq<ProcessSlot>, i: int, child: Pid) -> bool {
    children_set(old, new, i, old[i].proc.children@.push(child))
}

/// `k` is where `x` first occurs in `s`.
pub open spec fn first_at(s: Seq<Pid>, x: Pid, k: int) -> bool {
    &&& 0 <= k < s.len()
    &&& s[k] == x
    &&& forall|j: int| 0 <= j < k ==> s[j] != x
}

/// `s` with the element at `k` replaced by the last one, and the last dropped.
pub open spec fn swap_removed(s: Seq<Pid>, k: int) -> Seq<Pid> {
    s.update(k, s.last()).drop_last()
}

/// Enough room is left in the table for one more process: its index fits
/// an identifier and its kernel stack fits the address space.
pub open spec fn room_for_process(s: &Scheduler) -> bool {
    &&& s.processes@.len() + 1 < u32::MAX
    &&& KERNEL_PROC_STACK_BASE + (s.processes@.len() + 1) * KERNEL_PROC_STACK_SLOT_SIZE <= u64::MAX
}

/// A copy of `children`.
fn pids_copy(children: &Vec<Pid>) -> (r: Vec<Pid>)
    ensures
        r@ == children@,
{
    let mut out: Vec<Pid> = Vec::new();
    let mut i: usize = 0;
    while i < children.len()
        invariant
            i <= children@.len(),
            out@ == children@.subrange(0, i as int),
        decreases children@.len() - i,
    {
        out.push(children[i]);
        i = i + 1;
        proof {
            assert(out@ =~= children@.subrange(0, i as int));
        }
    }
    proof {
        assert(children@.subrange(0, children@.len() as int) =~= children@);
    }
    out
}

/// The identifiers in `children`, then `pid`.
fn pids_with(children: &Vec<Pid>, pid: Pid) -> (r: Vec<Pid>)
    ensures
        r@ == children@.push(pid),
{
    let mut out = pids_copy(children);
    out.push(pid);
    out
}

/// Where `pid` first occurs in `children`.
fn position_of(children: &Vec<Pid>, pid: Pid) -> (r: Option<usize>)
    ensures
        match r {
            Some(k) => first_at(children@, pid, k as int),
            None => !children@.contains(pid),
        },
{
    let mut i: usize = 0;
    while i < children.len()
        invariant
            i <= children@.len(),
            forall|j: int| 0 <= j < i ==> children@[j] != pid,
        decreases children@.len() - i,
    {
        if children[i].same(&pid) {
            return Some(i);
        }
        i = i + 1;
    }
    None
}

impl Scheduler {
    /// Gives `p` the next slot of the table, in its first generation, under
    /// the identifier that names that slot, and returns that identifier.
    pub fn add_process(&mut self, p: Process) -> (pid: Pid)
        requires
            old(self).processes@.len() + 1 < u32::MAX,
        ensures
            first_pid_of(pid, old(self).processes@.len() as int),
            final(self).processes@ == old(self).processes@.push(
                ProcessSlot { proc: Process { pid, ..p }, generation: 1 },
            ),
            final(self).runnable_processes@ == old(self).runnable_processes@,
            final(self).current_process == old(self).current_process,
            final(self).processes_waiting_keyboard@ == old(self).processes_waiting_keyboard@,
    {
        let idx = self.processes.len() as u32 + 1;
        let pid = Pid::new(idx, 1);
        let mut p = p;
        p.pid = pid;
        self.processes.push(ProcessSlot { proc: p, generation: 1 });
        pid
    }

    /// Adds `child` to the children of `parent`; false, and nothing changed,
    /// when `parent` names no process.
    fn link_child(&mut self, parent: Pid, child: Pid) -> (r: bool)
        ensures
            match slot_of(old(self).processes@, parent) {
                None => !r && final(self).processes@ == old(self).processes@,
                Some(i) => r && child_added(old(self).processes@, final(self).processes@, i, child),
            },
            final(self).runnable_processes@ == old(self).runnable_processes@,
            final(self).current_process == old(self).current_process,
            final(self).processes_waiting_keyboard@ == old(self).processes_waiting_keyboard@,
    {
        if parent.get_idx() == 0 {
            return false;
        }
        let children = match parent.get_process(&self.processes) {
            Some(p) => pids_with(&p.children, child),
            None => return false,
        };
        let i = (parent.get_idx() - 1) as usize;
        self.set_children(i, children);
        true
    }
}

/// A user process for the next slot of `scheduler`, not yet in the table:
/// its kernel stack is the one of that slot, its parent the running process.
fn make_user_process(fs: &mut Vfs, scheduler: &Scheduler, cwd_path: String, page_table_phys: u64, fxstate: FxState)
    -> (p: Process)
    requires
        old(fs).wf(),
        standard_devices_present(old(fs)),
        room_for_process(scheduler),
    ensures
        *final(fs) == *old(fs),
        zero_regs(p.saved_regs),
        fresh_user_process(
            p,
            p.pid,
            scheduler.current_process,
            kernel_stack_of(scheduler.processes@.len() as int).1 as u64,
            page_table_phys,
            standard_fds_of(old(fs)),
            fxstate,
            cwd_path@,
        ),
{
    let fds = match init_fd_list(fs) {
        Ok(v) => v,
        Err(_) => {
            proof {
                assert(false);
            }
            Vec::new()
        },
    };
    let n = scheduler.processes.len() as u32;
    let (_, kernel_stack_top) = kernel_stack_range(n);
    let mut p = Process::new_user(cwd_path, scheduler.current_process, page_table_phys, fds, fxstate);
    p.kernel_stack_top = kernel_stack_top;
    p
}

/// Puts `p` in the next slot of the table and among the children of the
/// running process; the flag is false when the running process names no
/// process (the new one is in the table all the same).
fn adopt(scheduler: &mut Scheduler, p: Process) -> (r: (Pid, bool))
    requires
        old(scheduler).processes@.len() + 1 < u32::MAX,
    ensures
        ({
            let n = old(scheduler).processes@.len() as int;
            let procs = final(scheduler).processes@;
            &&& first_pid_of(r.0, n)
            &&& procs.len() == n + 1
            &&& procs[n] == ProcessSlot { proc: Process { pid: r.0, ..p }, generation: 1 }
            &&& match old(scheduler).current_process {
                None => r.1 && procs.subrange(0, n) == old(scheduler).processes@,
                Some(pp) => match slot_of(old(scheduler).processes@, pp) {
                    None => !r.1 && procs.subrange(0, n) == old(scheduler).processes@,
                    Some(i) => r.1 && child_added(old(scheduler).processes@, procs.subrange(0, n), i, r.0),
                },
            }
        }),
        final(scheduler).runnable_processes@ == old(scheduler).runnable_processes@,
        final(scheduler).current_process == old(scheduler).current_process,
        final(scheduler).processes_waiting_keyboard@ == old(scheduler).processes_waiting_keyboard@,
{
    let n = scheduler.processes.len() as u32;
    let next = Pid::new(n + 1, 1);
    let linked = match scheduler.current_process {
        None => true,
        Some(pp) => scheduler.link_child(pp, next),
    };
    let ghost linked_procs = scheduler.processes@;
    let pid = scheduler.add_process(p);
    proof {
        crate::process::lemma_pid_ext(pid, next);
        assert(scheduler.processes@.subrange(0, n as int) =~= linked_procs);
    }
    (pid, linked)
}

impl Process {
    /// Makes a user process in the next slot of the table: the running
    /// process is its parent, its working directory `cwd_path`, its page
    /// table `page_table_phys`, its descriptors the three standard devices.
    /// Its identifier is returned, or none when the parent no longer names a
    /// process (the new one stays in the table then).
    pub fn empty_process(
        fs: &mut Vfs,
        scheduler: &mut Scheduler,
        cwd_path: String,
        page_table_phys: u64,
        fxstate: FxState,
    ) -> (r: Option<Pid>)
        requires
            old(fs).wf(),
            standard_devices_present(old(fs)),
            room_for_process(old(scheduler)),
        ensures
            *final(fs) == *old(fs),
            ({
                let n = old(scheduler).processes@.len() as int;
                let procs = final(scheduler).processes@;
                let pid = procs[n].proc.pid;
                let parent = old(scheduler).current_process;
                &&& procs.len() == n + 1
                &&& first_pid_of(pid, n)
                &&& procs[n].generation == 1
                &&& zero_regs(procs[n].proc.saved_regs)
                &&& fresh_user_process(
                    procs[n].proc,
                    pid,
                    parent,
                    kernel_stack_of(n).1 as u64,
                    page_table_phys,
                    standard_fds_of(old(fs)),
                    fxstate,
                    cwd_path@,
                )
                &&& match parent {
                    None => r == Some(pid) && procs.subrange(0, n) == old(scheduler).processes@,
                    Some(pp) => match slot_of(old(scheduler).processes@, pp) {
                        None => r is None && procs.subrange(0, n) == old(scheduler).processes@,
                        Some(i) => r == Some(pid) && child_added(
                            old(scheduler).processes@,
                            procs.subrange(0, n),
                            i,
                            pid,
                        ),
                    },
                }
            }),
            final(scheduler).runnable_processes@ == old(scheduler).runnable_processes@,
            final(scheduler).current_process == old(scheduler).current_process,
            final(scheduler).processes_waiting_keyboard@ == old(scheduler).processes_waiting_keyboard@,
    {
        let p = make_user_process(fs, scheduler, cwd_path, page_table_phys, fxstate);
        let (pid, linked) = adopt(scheduler, p);
        if linked {
            Some(pid)
        } else {
            None
        }
    }
}

/// `p` is the idle process: identifier `pid`, kernel code only on the page
/// table `pt`, ready in the kernel, its kernel stack ending at `kstack` and
/// its kernel context resuming at the word below that end, the rest of that
/// context and its saved registers zero; no parent, no children, no files,
/// no heap.
pub open spec fn idle_process(p: Process, pid: Pid, kstack: u64, pt: u64, fx: FxState) -> bool {
    &&& p.pid == pid
    &&& p.parent is None
    &&& p.children@.len() == 0
    &&& p.kernel_stack_top == kstack
    &&& p.page_table_phys == pt
    &&& p.state == SchedulerState::Ready(crate::process::ReadyMode::Kernel)
    &&& p.process_kind == ProcessKind::Kernel
    &&& p.kernel_context.rsp == kstack - 8
    &&& context_cleared(p.kernel_context)
    &&& zero_regs(p.saved_regs)
    &&& p.cwd_path@.len() == 0
    &&& p.fd_list@.len() == 0
    &&& p.free_fd_nb == 0
    &&& p.heap_start == 0 && p.heap_break == 0 && p.heap_max == 0
    &&& p.fxstate == fx
}

impl Process {
    /// Puts the idle process in the next slot of the table, on the kernel's
    /// page table `kernel_page_table`, with the kernel stack of that slot.
    /// Returns the address of the word below the stack's top, where the
    /// caller stores the idle loop's entry point for the first switch to it.
    pub fn init_idle_process(scheduler: &mut Scheduler, kernel_page_table: u64, fxstate: FxState) -> (entry_slot: u64)
        requires
            room_for_process(old(scheduler)),
        ensures
            ({
                let n = old(scheduler).processes@.len() as int;
                let procs = final(scheduler).processes@;
                &&& procs.len() == n + 1
                &&& procs.subrange(0, n) == old(scheduler).processes@
                &&& procs[n].generation == 1
                &&& first_pid_of(procs[n].proc.pid, n)
                &&& idle_process(
                    procs[n].proc,
                    procs[n].proc.pid,
                    kernel_stack_of(n).1 as u64,
                    kernel_page_table,
                    fxstate,
                )
                &&& entry_slot == kernel_stack_of(n).1 - 8
            }),
            final(scheduler).runnable_processes@ == old(scheduler).runnable_processes@,
            final(scheduler).current_process == old(scheduler).current_process,
            final(scheduler).processes_waiting_keyboard@ == old(scheduler).processes_waiting_keyboard@,
    {
        let n = scheduler.processes.len() as u32;
        let ghost old_procs = scheduler.processes@;
        let (_, kernel_stack_end) = kernel_stack_range(n);
        let pid = Pid::new(n + 1, 1);
        let p = Process::new_idle(pid, kernel_stack_end, kernel_page_table, fxstate);
        let added = scheduler.add_process(p);
        proof {
            crate::process::lemma_pid_ext(added, pid);
            assert(scheduler.processes@.subrange(0, n as int) =~= old_procs);
        }
        kernel_stack_end - 8
    }
}

/// The parent of the process `pid` names, when it names one too, lists it
/// among its children.
pub open spec fn parent_lists(procs: Seq<ProcessSlot>, pid: Pid) -> bool {
    slot_of(procs, pid) matches Some(i) ==> (procs[i].proc.parent matches Some(pp) ==> (slot_of(procs, pp) matches Some(
        j,
    ) ==> procs[j].proc.children@.contains(pid)))
}

/// Gives up on a process that could not be started: it leaves its parent's
/// children (the last child takes its place) and is marked dead. None, with
/// nothing changed, when `pid` or its parent names no process. Freeing its
/// memory is left to the caller.
pub fn destroy_process_because_err(scheduler: &mut Scheduler, pid: Pid) -> (r: Option<()>)
    requires
        parent_lists(old(scheduler).processes@, pid),
    ensures
        match slot_of(old(scheduler).processes@, pid) {
            None => r is None && final(scheduler).processes@ == old(scheduler).processes@,
            Some(i) => match old(scheduler).processes@[i].proc.parent {
                None => r is Some && final(scheduler).processes@ == with_state(
                    old(scheduler).processes@,
                    i,
                    SchedulerState::Dead,
                ),
                Some(pp) => match slot_of(old(scheduler).processes@, pp) {
                    None => r is None && final(scheduler).processes@ == old(scheduler).processes@,
                    Some(j) => {
                        let children = old(scheduler).processes@[j].proc.children@;
                        &&& r is Some
                        &&& exists|k: int, mid: Seq<ProcessSlot>|
                            first_at(children, pid, k) && children_set(
                                old(scheduler).processes@,
                                mid,
                                j,
                                swap_removed(children, k),
                            ) && final(scheduler).processes@ == with_state(mid, i, SchedulerState::Dead)
                    },
                },
            },
        },
        final(scheduler).runnable_processes@ == old(scheduler).runnable_processes@,
        final(scheduler).current_process == old(scheduler).current_process,
        final(scheduler).processes_waiting_keyboard@ == old(scheduler).processes_waiting_keyboard@,
{
    if pid.get_idx() == 0 {
        return None;
    }
    let parent = match pid.get_process(&scheduler.processes) {
        Some(p) => p.parent,
        None => return None,
    };
    let ghost before = scheduler.processes@;
    match parent {
        None => {},
        Some(pp) => {
            if pp.get_idx() == 0 {
                return None;
            }
            let (children, k) = match pp.get_process(&scheduler.processes) {
                Some(q) => {
                    let k = match position_of(&q.children, pid) {
                        Some(k) => k,
                        None => {
                            proof {
                                assert(false);
                            }
                            0
                        },
                    };
                    let mut c = pids_copy(&q.children);
                    c.swap_remove(k);
                    (c, k)
                },
                None => return None,
            };
            let j = (pp.get_idx() - 1) as usize;
            scheduler.set_children(j, children);
            proof {
                let mid = scheduler.processes@;
                assert(first_at(before[j as int].proc.children@, pid, k as int));
                assert(children_set(before, mid, j as int, swap_removed(before[j as int].proc.children@, k as int)));
                assert forall|q: Pid| slot_of(mid, q) == slot_of(before, q) by {
                    crate::scheduler::lemma_same_generations(mid, before, q);
                }
            }
        },
    }
    scheduler.mark_dead(pid);
    Some(())
}

/// Giving up a child that was just added, and that its parent did not list
/// before, leaves the parent's children as they were.
pub proof fn lemma_give_up_restores_children(children: Seq<Pid>, pid: Pid)
    requires
        !children.contains(pid),
    ensures
        first_at(children.push(pid), pid, children.len() as int),
        forall|k: int| #[trigger] first_at(children.push(pid), pid, k) ==> k == children.len(),
        swap_removed(children.push(pid), children.len() as int) == children,
{
    let c = children.push(pid);
    assert forall|j: int| 0 <= j < children.len() implies c[j] != pid by {
        assert(c[j] == children[j]);
    }
    assert(swap_removed(c, children.len() as int) =~= children);
}

/// The file `/init` names in `fs`, if it names a file.
pub open spec fn init_file_present(fs: &Vfs) -> bool {
    fs.resolve_path("/init"@) matches Ok(n) && fs.nodes()[n].kind is File
}

/// The bytes of `/init`: the archive bytes of a boot file; nothing for a file
/// made at run time.
pub open spec fn init_content(fs: &Vfs) -> Seq<u8> {
    match fs.nodes()[fs.resolve_path("/init"@)->Ok_0].kind {
        InodeKind::File { data: FileData::Initrd(v) } => v@,
        _ => Seq::empty(),
    }
}

/// The arguments `/init` is started with: its own path, in ASCII.
pub open spec fn init_args() -> Seq<Seq<u8>> {
    seq![seq![0x2fu8, 0x69u8, 0x6eu8, 0x69u8, 0x74u8]]
}

/// What entering the first process asks of the machine: its identifier; the
/// program's bytes and the plan for mapping them; the plan of its stack; the
/// page table, kernel stack top and registers to enter it with.
pub struct InitStart {
    pub pid: Pid,
    pub content: Vec<u8>,
    pub elf: ElfPlan,
    pub stack: StackPlan,
    pub page_table_phys: u64,
    pub kernel_stack_top: u64,
    pub regs: Registers,
}

/// Starts `/init` from the boot archive as the first process: a user process
/// in the next slot of the table, working in `/`, with the page table
/// `page_table_phys`, its program checked and planned, its stack holding its
/// own path as its one argument and the seed and canary from `rand`, ready
/// in user mode at the program's entry and made the running process. A
/// program that cannot be loaded is refused before anything changes.
#[verifier::rlimit(30)]
pub fn load_initrd_init(
    fs: &mut Vfs,
    scheduler: &mut Scheduler,
    page_table_phys: u64,
    fxstate: FxState,
    rand: &[u8; 40],
    code_selector: u16,
    data_selector: u16,
) -> (r: Result<InitStart, ElfError>)
    requires
        old(fs).wf(),
        init_file_present(old(fs)),
        standard_devices_present(old(fs)),
        room_for_process(old(scheduler)),
        old(scheduler).current_process matches Some(pp) ==> slot_of(old(scheduler).processes@, pp) is Some,
    ensures
        *final(fs) == *old(fs),
        match r {
            Err(e) => plans_program(init_content(old(fs)), Err(e)) && *final(scheduler) == *old(scheduler),
            Ok(s) => {
                let n = old(scheduler).processes@.len() as int;
                let procs = final(scheduler).processes@;
                let top = USER_STACK_TOP as int;
                &&& plans_program(init_content(old(fs)), Ok(s.elf))
                &&& s.content@ == init_content(old(fs))
                &&& first_pid_of(s.pid, n)
                &&& s.stack.arg_addrs@.len() == 1
                &&& s.stack.arg_addrs@[0] == arg_addr(top, init_args(), 0)
                &&& s.stack.rsp == block_start(top, init_args())
                &&& s.stack.block@ == start_block(
                    top,
                    init_args(),
                    le64(rand@.subrange(32, 40)),
                    rand@.subrange(0, 32),
                )
                &&& user_entry_regs(s.regs, s.elf.entry, s.stack.rsp, code_selector, data_selector)
                &&& s.page_table_phys == page_table_phys
                &&& s.kernel_stack_top == kernel_stack_of(n).1
                &&& procs.len() == n + 1
                &&& procs[n].generation == 1
                &&& procs[n].proc.state == SchedulerState::Ready(crate::process::ReadyMode::User)
                &&& procs[n].proc.saved_regs == s.regs
                &&& fresh_user_process(
                    Process { state: SchedulerState::Loading, ..procs[n].proc },
                    s.pid,
                    old(scheduler).current_process,
                    kernel_stack_of(n).1 as u64,
                    page_table_phys,
                    standard_fds_of(old(fs)),
                    fxstate,
                    "/"@,
                )
                &&& match old(scheduler).current_process {
                    None => procs.subrange(0, n) == old(scheduler).processes@,
                    Some(pp) => child_added(
                        old(scheduler).processes@,
                        procs.subrange(0, n),
                        slot_of(old(scheduler).processes@, pp)->Some_0,
                        s.pid,
                    ),
                }
                &&& final(scheduler).current_process == Some(s.pid)
                &&& final(scheduler).runnable_processes@ == old(scheduler).runnable_processes@
                &&& final(scheduler).processes_waiting_keyboard@ == old(scheduler).processes_waiting_keyboard@
            },
        },
{
    let init_path = "/init";
    proof {
        reveal_strlit("/init");
    }
    let node = match fs.get_inode(init_path) {
        Ok(n) => n,
        Err(_) => {
            proof {
                assert(false);
            }
            0
        },
    };
    proof {
        crate::vfs::lemma_walk_in_range(fs, 0, crate::path::nonempty_components("/init"@));
    }
    let content = match fs.read_entire_file_in_mem(node) {
        Ok(c) => c,
        Err(_) => {
            proof {
                assert(false);
            }
            Vec::new()
        },
    };
    proof {
        assert(content@ =~= init_content(fs));
    }
    let elf = match plan_program(content.as_slice()) {
        Ok(p) => p,
        Err(e) => return Err(e),
    };
    let args: Vec<Vec<u8>> = vec![vec![0x2fu8, 0x69u8, 0x6eu8, 0x69u8, 0x74u8]];
    proof {
        assert(args@.map_values(|a: Vec<u8>| a@) =~= init_args());
        reveal_with_fuel(bytes_before, 2);
    }
    let stack = plan_process_stack(USER_STACK_TOP, &args, rand);
    let mut p = make_user_process(fs, scheduler, "/".to_owned(), page_table_phys, fxstate);
    p.init_process(elf.entry, stack.rsp, code_selector, data_selector);
    let regs = p.saved_regs;
    let (pid, _) = adopt(scheduler, p);
    let entered = scheduler.start_first_process(pid);
    let (pt, kernel_stack_top) = match entered {
        Some((pt, k, _)) => (pt, k),
        None => {
            proof {
                assert(false);
            }
            (0, 0)
        },
    };
    Ok(InitStart { pid, content, elf, stack, page_table_phys: pt, kernel_stack_top, regs })
}

/// The program `path` names from the working directory `cwd` in `fs`: the
/// bytes of the file it names, when it names one (nothing for a file made at
/// run time).
pub open spec fn exec_content(fs: &Vfs, cwd: Seq<char>, path: Seq<char>) -> Option<Seq<u8>> {
    match canonical_path(path, cwd) {
        None => None,
        Some(c) => match fs.resolve_path(c) {
            Ok(n) => match fs.nodes()[n].kind {
                InodeKind::File { data: FileData::Initrd(v) } => Some(v@),
                InodeKind::File { data: FileData::Memory(_) } => Some(Seq::empty()),
                _ => None,
            },
            Err(_) => None,
        },
    }
}

/// What running a new program asks of the machine: the new process's
/// identifier, the program's bytes and the plan for mapping them, and the
/// plan of its stack.
pub struct ExecStart {
    pub pid: Pid,
    pub content: Vec<u8>,
    pub elf: ElfPlan,
    pub stack: StackPlan,
}

/// Runs the program `path` names, from the running process's working
/// directory, in a new process: a child of the running one, in the next slot
/// of the table, with the page table `page_table_phys`, the arguments `args`
/// and the seed and canary from `rand` on its stack, made ready in user mode
/// at the program's entry. None when `path` names no file; when the program
/// cannot be loaded, the new process is given up (see
/// `destroy_process_because_err`) and none is returned.
#[verifier::rlimit(40)]
pub fn syscall_exec(
    fs: &mut Vfs,
    scheduler: &mut Scheduler,
    path: &str,
    args: &Vec<Vec<u8>>,
    page_table_phys: u64,
    fxstate: FxState,
    rand: &[u8; 40],
    code_selector: u16,
    data_selector: u16,
) -> (r: Option<ExecStart>)
    requires
        old(fs).wf(),
        standard_devices_present(old(fs)),
        room_for_process(old(scheduler)),
        old(scheduler).current_process matches Some(c) && slot_of(old(scheduler).processes@, c) is Some,
        stack_room(args@.map_values(|a: Vec<u8>| a@)) <= USER_STACK_TOP,
    ensures
        *final(fs) == *old(fs),
        final(scheduler).current_process == old(scheduler).current_process,
        final(scheduler).processes_waiting_keyboard@ == old(scheduler).processes_waiting_keyboard@,
        ({
            let procs0 = old(scheduler).processes@;
            let cur = old(scheduler).current_process->Some_0;
            let i = slot_of(procs0, cur)->Some_0;
            let cwd = procs0[i].proc.cwd_path@;
            let a = args@.map_values(|a: Vec<u8>| a@);
            let top = USER_STACK_TOP as int;
            match exec_content(old(fs), cwd, path@) {
                None => {
                    &&& r is None
                    &&& final(scheduler).processes@ == procs0
                    &&& final(scheduler).runnable_processes@ == old(scheduler).runnable_processes@
                },
                Some(content) => {
                    let n = procs0.len() as int;
                    let procs = final(scheduler).processes@;
                    let pid = procs[n].proc.pid;
                    let children = procs0[i].proc.children@.push(pid);
                    &&& procs.len() == n + 1
                    &&& procs[n].generation == 1
                    &&& first_pid_of(pid, n)
                    &&& fresh_user_process(
                        Process { state: SchedulerState::Loading, ..procs[n].proc },
                        pid,
                        Some(cur),
                        kernel_stack_of(n).1 as u64,
                        page_table_phys,
                        standard_fds_of(old(fs)),
                        fxstate,
                        cwd,
                    )
                    &&& match r {
                        Some(s) => {
                            &&& s.pid == pid
                            &&& s.content@ == content
                            &&& plans_program(content, Ok(s.elf))
                            &&& s.stack.arg_addrs@.len() == a.len()
                            &&& forall|k: int| 0 <= k < a.len() ==> s.stack.arg_addrs@[k] == arg_addr(top, a, k)
                            &&& s.stack.rsp == block_start(top, a)
                            &&& s.stack.block@ == start_block(
                                top,
                                a,
                                le64(rand@.subrange(32, 40)),
                                rand@.subrange(0, 32),
                            )
                            &&& procs[n].proc.state == SchedulerState::Ready(crate::process::ReadyMode::User)
                            &&& user_entry_regs(
                                procs[n].proc.saved_regs,
                                s.elf.entry,
                                s.stack.rsp,
                                code_selector,
                                data_selector,
                            )
                            &&& child_added(procs0, procs.subrange(0, n), i, pid)
                            &&& final(scheduler).runnable_processes@ == if old(
                                scheduler,
                            ).runnable_processes@.contains(pid) {
                                old(scheduler).runnable_processes@
                            } else {
                                old(scheduler).runnable_processes@.push(pid)
                            }
                        },
                        None => {
                            &&& exists|e: ElfError| plans_program(content, Err(e))
                            &&& procs[n].proc.state == SchedulerState::Dead
                            &&& exists|k: int|
                                first_at(children, pid, k) && children_set(
                                    procs0,
                                    procs.subrange(0, n),
                                    i,
                                    swap_removed(children, k),
                                )
                            &&& final(scheduler).runnable_processes@ == old(scheduler).runnable_processes@
                        },
                    }
                },
            }
        }),
{
    let cur = match scheduler.current_process {
        Some(c) => c,
        None => {
            proof {
                assert(false);
            }
            return None;
        },
    };
    let cwd = match cur.get_process(&scheduler.processes) {
        Some(p) => p.cwd_path.clone(),
        None => {
            proof {
                assert(false);
            }
            return None;
        },
    };
    let content = match exec_file_content(fs, cwd.as_str(), path) {
        Some(c) => c,
        None => return None,
    };
    proof {
        assert(content@ =~= exec_content(fs, cwd@, path@)->Some_0);
    }
    let planned = plan_program(content.as_slice());
    let mut p = make_user_process(fs, scheduler, cwd, page_table_phys, fxstate);
    let ghost procs0 = scheduler.processes@;
    let ghost n = procs0.len() as int;
    match planned {
        Err(e) => {
            let (pid, _) = adopt(scheduler, p);
            let ghost added = scheduler.processes@;
            proof {
                assert(plans_program(content@, Err(e)));
                assert(added[n].proc.parent == Some(cur));
                assert(slot_of(added, cur) == slot_of(procs0, cur));
                assert(added[slot_of(procs0, cur)->Some_0].proc.children@.contains(pid)) by {
                    let i = slot_of(procs0, cur)->Some_0;
                    assert(added.subrange(0, n)[i] == added[i]);
                    assert(added[i].proc.children@.last() == pid);
                }
                assert(slot_of(added, pid) == Some(n));
            }
            destroy_process_because_err(scheduler, pid);
            proof {
                let i = slot_of(procs0, cur)->Some_0;
                let children = procs0[i].proc.children@.push(pid);
                let (k, mid) = choose|k: int, mid: Seq<ProcessSlot>|
                    first_at(added[i].proc.children@, pid, k) && children_set(
                        added,
                        mid,
                        i,
                        swap_removed(added[i].proc.children@, k),
                    ) && scheduler.processes@ == with_state(mid, n, SchedulerState::Dead);
                assert(scheduler.processes@.subrange(0, n) =~= mid.subrange(0, n));
                assert(first_at(children, pid, k) && children_set(
                    procs0,
                    scheduler.processes@.subrange(0, n),
                    i,
                    swap_removed(children, k),
                ));
            }
            None
        },
        Ok(elf) => {
            let stack = plan_process_stack(USER_STACK_TOP, args, rand);
            p.init_process(elf.entry, stack.rsp, code_selector, data_selector);
            let (pid, _) = adopt(scheduler, p);
            proof {
                assert(slot_of(scheduler.processes@, pid) == Some(n));
            }
            let ghost added = scheduler.processes@;
            scheduler.make_runnable(pid);
            proof {
                assert(scheduler.processes@.subrange(0, n) =~= added.subrange(0, n));
            }
            Some(ExecStart { pid, content, elf, stack })
        },
    }
}

} // verus!
