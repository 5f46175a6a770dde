//! The system call layer: arguments, return values, and the calls that only
//! need the file system and the scheduler. Copying to and from user memory
//! is done around these functions, once the user range is checked.

use vstd::prelude::*;
use vstd::string::StringSliceAdditionalSpecFns;
use vstd::utf8::encode_utf8;
use crate::abi::{
    Stat, StatMode, CREATE_FILE, READABLE, SHUTDOWN_REBOOT, SHUTDOWN_SUCCESS, SYSCALL_CHANGE_CWD, SYSCALL_CLOSE,
    SYSCALL_EXEC, SYSCALL_EXIT, SYSCALL_FSTAT, SYSCALL_GET_CWD, SYSCALL_GET_DIR_CHILDREN, SYSCALL_GET_RANDOM,
    SYSCALL_OPEN, SYSCALL_READ, SYSCALL_SBRK, SYSCALL_SHUTDOWN, SYSCALL_STAT, SYSCALL_WAIT_PID, SYSCALL_WRITE, WRITABLE,
};
use crate::align::{is_pow2, round_up};
use crate::path::{canonical_path, canonicalize_path, nonempty_components};
use crate::process::{Pid, Process, ReadyMode, Registers, SchedulerState};
use crate::scheduler::{slot_of, with_state, Scheduler};
use crate::vfs::{file_bytes, stat_of, FileData, InodeKind, Vfs, WalkError};
use crate::elf_loader::{PAGE_NO_EXECUTE, PAGE_PRESENT, PAGE_USER_ACCESSIBLE, PAGE_WRITABLE};

verus! {

/// The `nb`-th argument of a system call: `rdi`, `rsi`, `rdx`, `r10`,
/// `r8`, `r9`.
pub fn get_arg(regs: &Registers, nb: u8) -> (r: u64)
    requires
        1 <= nb <= 6,
    ensures
        nb == 1 ==> r == regs.rdi,
        nb == 2 ==> r == regs.rsi,
        nb == 3 ==> r == regs.rdx,
        nb == 4 ==> r == regs.r10,
        nb == 5 ==> r == regs.r8,
        nb == 6 ==> r == regs.r9,
{
    match nb {
        1 => regs.rdi,
        2 => regs.rsi,
        3 => regs.rdx,
        4 => regs.r10,
        5 => regs.r8,
        _ => regs.r9,
    }
}

/// The value a system call leaves in `rax`: its result, or all ones on failure.
pub fn syscall_return(r: Option<u64>) -> (v: u64)
    ensures
        v == match r {
            Some(x) => x,
            None => u64::MAX,
        },
{
    match r {
        Some(x) => x,
        None => u64::MAX,
    }
}

/// How a file is to be opened, from the mode bits of the open call.
pub fn open_mode(mode: u64) -> (r: (bool, bool, bool))
    ensures
        r == (mode & READABLE != 0, mode & WRITABLE != 0, mode & CREATE_FILE != 0),
{
    (mode & READABLE != 0, mode & WRITABLE != 0, mode & CREATE_FILE != 0)
}

/// The pages a user buffer of `len` bytes at `ptr` covers, first and last
/// page addresses; `Some(None)` for an empty buffer, none when the range
/// wraps around.
pub open spec fn user_pages(ptr: u64, len: u64) -> Option<Option<(u64, u64)>> {
    if ptr + len > u64::MAX {
        None
    } else if len == 0 {
        Some(None)
    } else {
        Some(Some(((ptr / 4096 * 4096) as u64, ((ptr + len - 1) / 4096 * 4096) as u64)))
    }
}

pub fn user_page_range(ptr: u64, len: u64) -> (r: Option<Option<(u64, u64)>>)
    ensures
        r == user_pages(ptr, len),
{
    let end = match ptr.checked_add(len) {
        Some(e) => e,
        None => return None,
    };
    if len == 0 {
        return Some(None);
    }
    Some(Some((ptr / 4096 * 4096, (end - 1) / 4096 * 4096)))
}

/// A page with flags `flags` (none when unmapped) may be used by a user
/// access: mapped, user-accessible, and writable for a write.
pub open spec fn page_allows(flags: Option<u64>, is_write: bool) -> bool {
    match flags {
        None => false,
        Some(f) => f & PAGE_USER_ACCESSIBLE != 0 && (!is_write || f & PAGE_WRITABLE != 0),
    }
}

/// Whether a user buffer may be accessed, given the flags of the pages it
/// covers, in order.
pub fn check_ptr(ptr: u64, len: u64, is_write: bool, page_flags: &[Option<u64>]) -> (r: bool)
    requires
        user_pages(ptr, len) matches Some(Some((s, e))) ==> page_flags@.len() == (e - s) / 4096 + 1,
    ensures
        r == match user_pages(ptr, len) {
            None => false,
            Some(None) => true,
            Some(Some(_)) => forall|i: int| 0 <= i < page_flags@.len() ==> page_allows(#[trigger] page_flags@[i], is_write),
        },
{
    match user_page_range(ptr, len) {
        None => false,
        Some(None) => true,
        Some(Some(_)) => {
            let mut i: usize = 0;
            while i < page_flags.len()
                invariant
                    i <= page_flags@.len(),
                    user_pages(ptr, len) matches Some(Some(_)),
                    forall|j: int| 0 <= j < i ==> page_allows(#[trigger] page_flags@[j], is_write),
                decreases page_flags@.len() - i,
            {
                match page_flags[i] {
                    None => {
                        proof {
                            assert(!page_allows(page_flags@[i as int], is_write));
                        }
                        return false;
                    },
                    Some(f) => {
                        if f & PAGE_USER_ACCESSIBLE == 0 {
                            proof {
                                assert(!page_allows(page_flags@[i as int], is_write));
                            }
                            return false;
                        }
                        if is_write && f & PAGE_WRITABLE == 0 {
                            proof {
                                assert(!page_allows(page_flags@[i as int], is_write));
                            }
                            return false;
                        }
                    },
                }
                i = i + 1;
            }
            true
        },
    }
}

/// The flags of user heap pages.
pub open spec fn heap_page_flags() -> u64 {
    (PAGE_PRESENT | PAGE_WRITABLE | PAGE_USER_ACCESSIBLE | PAGE_NO_EXECUTE) as u64
}

impl Process {
    /// Grows the heap by `increment` bytes: the old break, and the page
    /// range `[start, end)` to map when it covers new pages; nothing when
    /// the new break leaves the heap.
    pub fn sbrk(&mut self, increment: u64) -> (r: Option<(u64, Option<(u64, u64)>)>)
        requires
            old(self).heap_max <= 0xffff_ffff_ffff_f000u64,
        ensures
            ({
                let b = old(self).heap_break;
                if b + increment > u64::MAX || b + increment > old(self).heap_max || b + increment < old(self).heap_start {
                    r is None && *final(self) == *old(self)
                } else {
                    let nb = b + increment;
                    let s = round_up(b as int, 4096);
                    let e = round_up(nb, 4096);
                    &&& final(self).heap_break == nb
                    &&& *final(self) == (Process { heap_break: nb as u64, ..*old(self) })
                    &&& r == Some((b, if increment > 0 && s < e { Some((s as u64, e as u64)) } else { None }))
                }
            }),
    {
        let current_break = self.heap_break;
        let new_break = match current_break.checked_add(increment) {
            Some(n) => n,
            None => return None,
        };
        if new_break > self.heap_max || new_break < self.heap_start {
            return None;
        }
        self.heap_break = new_break;
        assert(is_pow2(4096u64)) by (bit_vector);
        proof {
            crate::align::lemma_round_up(current_break as int, 4096);
            crate::align::lemma_round_up(new_break as int, 4096);
        }
        let map_start = x86_64::align_up(current_break, 4096);
        let map_end = x86_64::align_up(new_break, 4096);
        if increment > 0 && map_start < map_end {
            Some((current_break, Some((map_start, map_end))))
        } else {
            Some((current_break, None))
        }
    }
}

/// Changes the working directory of `process` to `path`, which must name a
/// directory.
pub fn syscall_change_cwd(fs: &Vfs, process: &mut Process, path: &str) -> (r: Option<()>)
    requires
        fs.wf(),
    ensures
        match canonical_path(path@, old(process).cwd_path@) {
            None => r is None && *final(process) == *old(process),
            Some(c) => if fs.resolve_path(c) matches Ok(n) && fs.is_dir(n) {
                r is Some && final(process).cwd_path@ == c && *final(process) == (Process {
                    cwd_path: final(process).cwd_path,
                    ..*old(process)
                })
            } else {
                r is None && *final(process) == *old(process)
            },
        },
{
    let canonical = match canonicalize_path(path, process.cwd_path.as_str()) {
        Some(c) => c,
        None => return None,
    };
    let ok = match fs.file_stat(canonical.as_str()) {
        Ok(Stat { mode: StatMode::Directory }) => true,
        _ => false,
    };
    proof {
        if fs.resolve_path(canonical@) is Ok {
            crate::vfs::lemma_walk_in_range(fs, 0, nonempty_components(canonical@));
        }
    }
    if !ok {
        return None;
    }
    process.cwd_path = canonical;
    Some(())
}

/// The bytes of the working directory, when they fit in `capacity` bytes.
pub fn syscall_get_cwd(process: &Process, capacity: usize) -> (r: Option<Vec<u8>>)
    ensures
        r matches Some(v) ==> v@ == encode_utf8(process.cwd_path@) && v@.len() <= capacity,
        r is None <==> encode_utf8(process.cwd_path@).len() > capacity,
{
    let bytes = process.cwd_path.as_str().as_bytes();
    if bytes.len() > capacity {
        return None;
    }
    Some(vstd::slice::slice_to_vec(bytes))
}

/// What a shutdown call asks for: a reboot, or a power-off that reports
/// success or failure.
#[derive(Clone, Copy, Debug, PartialEq, Eq, Structural)]
pub enum ShutdownRequest {
    Reboot,
    PowerOff { success: bool },
}

/// What the flags of a shutdown call ask for: the reboot bit wins; otherwise
/// the success bit says how the machine reports its exit.
pub open spec fn request_of(flags: u64) -> ShutdownRequest {
    if flags & SHUTDOWN_REBOOT != 0 {
        ShutdownRequest::Reboot
    } else {
        ShutdownRequest::PowerOff { success: flags & SHUTDOWN_SUCCESS != 0 }
    }
}

/// Decodes the flags of a shutdown call.
pub fn shutdown_request(flags: u64) -> (r: ShutdownRequest)
    ensures
        r == request_of(flags),
{
    if flags & SHUTDOWN_REBOOT != 0 {
        ShutdownRequest::Reboot
    } else {
        ShutdownRequest::PowerOff { success: flags & SHUTDOWN_SUCCESS != 0 }
    }
}

/// The program file an exec call names, seen from the working directory
/// `cwd`: its bytes, when the path names a file read from the boot archive.
pub fn exec_file_content(fs: &Vfs, cwd: &str, path: &str) -> (r: Option<Vec<u8>>)
    requires
        fs.wf(),
    ensures
        match canonical_path(path@, cwd@) {
            None => r is None,
            Some(c) => match fs.resolve_path(c) {
                Ok(n) => match fs.nodes()[n].kind {
                    InodeKind::File { data: FileData::Initrd(v) } => r matches Some(b) && b@ == v@,
                    InodeKind::File { data: FileData::Memory(_) } => r matches Some(b) && b@.len() == 0,
                    _ => r is None,
                },
                Err(_) => r is None,
            },
        },
{
    let canonical = match canonicalize_path(path, cwd) {
        Some(c) => c,
        None => return None,
    };
    let n = match fs.get_inode(canonical.as_str()) {
        Ok(n) => n,
        Err(_) => return None,
    };
    proof {
        crate::vfs::lemma_walk_in_range(fs, 0, nonempty_components(canonical@));
    }
    match fs.read_entire_file_in_mem(n) {
        Ok(v) => Some(v),
        Err(_) => None,
    }
}

/// What one round of waiting for a child decides.
#[derive(Clone, Copy, Debug, PartialEq, Eq, Structural)]
pub enum WaitOutcome {
    /// The process named is not a child of the caller: fail.
    NotChild,
    /// The child has ended with this code; it is now collected.
    Exited(i32),
    /// The child still runs: the caller now waits for it.
    Wait,
}

/// Whether `pid` is among `children`.
pub fn contains_pid(children: &Vec<Pid>, pid: Pid) -> (r: bool)
    ensures
        r == children@.contains(pid),
{
    let mut i: usize = 0;
    while i < children.len()
        invariant
            i <= children@.len(),
            forall|j: int| 0 <= j < i ==> children@[j] != pid,
        decreases children@.len() - i,
    {
        if children[i].same(&pid) {
            proof {
                assert(children@[i as int] == pid);
            }
            return true;
        }
        i = i + 1;
    }
    false
}

/// Keeps the identifiers other than `pid`.
pub open spec fn not_pid(pid: Pid) -> spec_fn(Pid) -> bool {
    |c: Pid| c != pid
}

/// `children` without `pid`.
pub open spec fn without_pid(children: Seq<Pid>, pid: Pid) -> Seq<Pid> {
    children.filter(not_pid(pid))
}

fn remove_pid(children: &Vec<Pid>, pid: Pid) -> (r: Vec<Pid>)
    ensures
        r@ == without_pid(children@, pid),
{
    let mut out: Vec<Pid> = Vec::new();
    let mut i: usize = 0;
    proof {
        reveal(Seq::filter);
        assert(children@.subrange(0, 0) =~= Seq::<Pid>::empty());
    }
    while i < children.len()
        invariant
            i <= children@.len(),
            out@ == without_pid(children@.subrange(0, i as int), pid),
        decreases children@.len() - i,
    {
        let c = children[i];
        proof {
            assert(children@.subrange(0, i + 1) =~= children@.subrange(0, i as int).push(c));
            children@.subrange(0, i as int).lemma_filter_push(c, not_pid(pid));
        }
        if !c.same(&pid) {
            out.push(c);
        }
        i = i + 1;
    }
    proof {
        assert(children@.subrange(0, children@.len() as int) =~= children@);
    }
    out
}

impl Scheduler {
    /// Marks the process `pid` names as ended for good.
    pub fn mark_dead(&mut self, pid: Pid)
        requires
            slot_of(old(self).processes@, pid) is Some,
        ensures
            final(self).processes@ == with_state(
                old(self).processes@,
                slot_of(old(self).processes@, pid)->Some_0,
                SchedulerState::Dead,
            ),
            final(self).runnable_processes@ == old(self).runnable_processes@,
            final(self).current_process == old(self).current_process,
            final(self).processes_waiting_keyboard@ == old(self).processes_waiting_keyboard@,
    {
        self.set_state_of(pid, SchedulerState::Dead);
    }

    /// The current process waits for its child `waited`: a child that has
    /// ended is collected (marked dead and dropped from the children) and its
    /// exit code returned; a running child makes the caller wait.
    pub fn wait_pid_step(&mut self, waited: Pid) -> (r: WaitOutcome)
        requires
            old(self).current_process matches Some(c) && slot_of(old(self).processes@, c) is Some,
            waited.wf(),
        ensures
            ({
                let procs = old(self).processes@;
                let c = old(self).current_process->Some_0;
                let ci = slot_of(procs, c)->Some_0;
                if procs.len() < waited.spec_idx() || !procs[ci].proc.children@.contains(waited) || slot_of(procs, waited)
                    is None {
                    r is NotChild && *final(self) == *old(self)
                } else if state_of_slot(procs, waited) is Zombie {
                    let wi = slot_of(procs, waited)->Some_0;
                    let dead = with_state(procs, wi, SchedulerState::Dead);
                    &&& r == WaitOutcome::Exited(state_of_slot(procs, waited)->Zombie_0)
                    &&& final(self).processes@.len() == procs.len()
                    &&& final(self).processes@[ci].proc.children@ == without_pid(dead[ci].proc.children@, waited)
                    &&& forall|i: int| 0 <= i < procs.len() && i != ci ==> final(self).processes@[i] == dead[i]
                    &&& final(self).runnable_processes@ == old(self).runnable_processes@
                    &&& final(self).current_process == old(self).current_process
                } else {
                    &&& r is Wait
                    &&& final(self).processes@ == with_state(procs, ci, SchedulerState::WaitPid(waited))
                    &&& final(self).runnable_processes@ == old(self).runnable_processes@
                    &&& final(self).current_process == old(self).current_process
                }
            }),
    {
        if self.processes.len() < waited.get_idx() as usize {
            return WaitOutcome::NotChild;
        }
        let c = match self.current_process {
            Some(c) => c,
            None => Pid::new(1, 0),
        };
        let ci = (c.get_idx() - 1) as usize;
        if !contains_pid(&self.processes[ci].proc.children, waited) {
            return WaitOutcome::NotChild;
        }
        let wi = (waited.get_idx() - 1) as usize;
        if self.processes[wi].generation != waited.get_gen() {
            return WaitOutcome::NotChild;
        }
        match self.processes[wi].proc.state {
            SchedulerState::Zombie(code) => {
                self.mark_dead(waited);
                let ghost dead = self.processes@;
                let kept = remove_pid(&self.processes[ci].proc.children, waited);
                self.set_children(ci, kept);
                proof {
                    assert forall|i: int| 0 <= i < dead.len() && i != ci implies self.processes@[i] == dead[i] by {
                    }
                }
                WaitOutcome::Exited(code)
            },
            _ => {
                self.set_state(ci, SchedulerState::WaitPid(waited));
                WaitOutcome::Wait
            },
        }
    }
}

/// The state of the process `pid` names.
pub open spec fn state_of_slot(procs: Seq<crate::scheduler::ProcessSlot>, pid: Pid) -> SchedulerState {
    procs[slot_of(procs, pid)->Some_0].proc.state
}

/// The system calls, by number.
#[derive(Clone, Copy, Debug, PartialEq, Eq, Structural)]
pub enum SyscallKind {
    Exit,
    Exec,
    WaitPid,
    Stat,
    Open,
    Close,
    GetCwd,
    GetDirChildren,
    Sbrk,
    Shutdown,
    ChangeCwd,
    Fstat,
    Read,
    Write,
    GetRandom,
}

/// The system call that number `nb` asks for; none for an unknown number
/// (among them the reading of a character, whose number is not dispatched).
pub open spec fn kind_of(nb: u64) -> Option<SyscallKind> {
    if nb == SYSCALL_EXIT { Some(SyscallKind::Exit) }
    else if nb == SYSCALL_EXEC { Some(SyscallKind::Exec) }
    else if nb == SYSCALL_WAIT_PID { Some(SyscallKind::WaitPid) }
    else if nb == SYSCALL_STAT { Some(SyscallKind::Stat) }
    else if nb == SYSCALL_OPEN { Some(SyscallKind::Open) }
    else if nb == SYSCALL_CLOSE { Some(SyscallKind::Close) }
    else if nb == SYSCALL_GET_CWD { Some(SyscallKind::GetCwd) }
    else if nb == SYSCALL_GET_DIR_CHILDREN { Some(SyscallKind::GetDirChildren) }
    else if nb == SYSCALL_SBRK { Some(SyscallKind::Sbrk) }
    else if nb == SYSCALL_SHUTDOWN { Some(SyscallKind::Shutdown) }
    else if nb == SYSCALL_CHANGE_CWD { Some(SyscallKind::ChangeCwd) }
    else if nb == SYSCALL_FSTAT { Some(SyscallKind::Fstat) }
    else if nb == SYSCALL_READ { Some(SyscallKind::Read) }
    else if nb == SYSCALL_WRITE { Some(SyscallKind::Write) }
    else if nb == SYSCALL_GET_RANDOM { Some(SyscallKind::GetRandom) }
    else { None }
}

pub fn syscall_kind(nb: u64) -> (r: Option<SyscallKind>)
    ensures
        r == kind_of(nb),
{
    if nb == SYSCALL_EXIT { Some(SyscallKind::Exit) }
    else if nb == SYSCALL_EXEC { Some(SyscallKind::Exec) }
    else if nb == SYSCALL_WAIT_PID { Some(SyscallKind::WaitPid) }
    else if nb == SYSCALL_STAT { Some(SyscallKind::Stat) }
    else if nb == SYSCALL_OPEN { Some(SyscallKind::Open) }
    else if nb == SYSCALL_CLOSE { Some(SyscallKind::Close) }
    else if nb == SYSCALL_GET_CWD { Some(SyscallKind::GetCwd) }
    else if nb == SYSCALL_GET_DIR_CHILDREN { Some(SyscallKind::GetDirChildren) }
    else if nb == SYSCALL_SBRK { Some(SyscallKind::Sbrk) }
    else if nb == SYSCALL_SHUTDOWN { Some(SyscallKind::Shutdown) }
    else if nb == SYSCALL_CHANGE_CWD { Some(SyscallKind::ChangeCwd) }
    else if nb == SYSCALL_FSTAT { Some(SyscallKind::Fstat) }
    else if nb == SYSCALL_READ { Some(SyscallKind::Read) }
    else if nb == SYSCALL_WRITE { Some(SyscallKind::Write) }
    else if nb == SYSCALL_GET_RANDOM { Some(SyscallKind::GetRandom) }
    else { None }
}

impl Scheduler {
    /// After a system call, the running process goes back to user code.
    pub fn mark_current_as_user(&mut self)
        requires
            old(self).current_process matches Some(c) && c.wf() && slot_of(old(self).processes@, c) is Some,
        ensures
            ({
                let c = old(self).current_process->Some_0;
                &&& final(self).processes@ == with_state(
                    old(self).processes@,
                    slot_of(old(self).processes@, c)->Some_0,
                    SchedulerState::Ready(ReadyMode::User),
                )
                &&& final(self).current_process == old(self).current_process
                &&& final(self).runnable_processes@ == old(self).runnable_processes@
                &&& final(self).processes_waiting_keyboard@ == old(self).processes_waiting_keyboard@
            }),
    {
        let c = match self.current_process {
            Some(c) => c,
            None => return,
        };
        let i = (c.get_idx() - 1) as usize;
        self.set_state(i, SchedulerState::Ready(ReadyMode::User));
    }
}

} // verus!
