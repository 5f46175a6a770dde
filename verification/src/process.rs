//! Processes: identifiers with generations, scheduling states, saved
//! contexts and the table of open files.

use vstd::prelude::*;
use crate::abi::Fd;

verus! {

/// A process identifier: the slot in the process table (counted from 1)
/// and the generation of that slot when the process was made.
#[derive(Clone, Copy, Debug, PartialEq, Eq, Structural)]
pub struct Pid {
    idx: u32,
    generation: u32,
}

impl Pid {
    pub closed spec fn spec_idx(self) -> u32 {
        self.idx
    }

    pub closed spec fn spec_gen(self) -> u32 {
        self.generation
    }

    /// A slot index is never 0.
    pub open spec fn wf(self) -> bool {
        self.spec_idx() != 0
    }

    /// The word that carries the identifier: generation high, index low.
    pub open spec fn raw_of(self) -> int {
        self.spec_gen() * 0x1_0000_0000int + self.spec_idx()
    }

    pub fn new(pid_idx: u32, generation: u32) -> (r: Pid)
        requires
            pid_idx != 0,
        ensures
            r.wf(),
            r.spec_idx() == pid_idx,
            r.spec_gen() == generation,
    {
        Pid { idx: pid_idx, generation }
    }

    /// The identifier a word carries; none when its index half is 0.
    pub fn from_raw(raw: u64) -> (r: Option<Pid>)
        ensures
            raw as int % 0x1_0000_0000int == 0 ==> r is None,
            raw as int % 0x1_0000_0000int != 0 ==> (r matches Some(p) && p.wf() && p.spec_idx() == raw as int
                % 0x1_0000_0000int && p.spec_gen() == raw as int / 0x1_0000_0000int),
    {
        let generation = (raw >> 32u64) as u32;
        let idx = raw as u32;
        assert((raw >> 32u64) as u32 == raw / 0x1_0000_0000u64) by (bit_vector);
        assert(raw as u32 == raw % 0x1_0000_0000u64) by (bit_vector);
        if idx == 0 {
            None
        } else {
            Some(Pid { idx, generation })
        }
    }

    pub fn into_raw(self) -> (raw: u64)
        ensures
            raw == self.raw_of(),
    {
        let g = self.generation;
        let i = self.idx;
        assert((((g as u64) << 32u64) | (i as u64)) == (g as u64) * 0x1_0000_0000u64 + (i as u64))
            by (bit_vector);
        assert((g as u64) * 0x1_0000_0000u64 + (i as u64) == g * 0x1_0000_0000int + i) by (nonlinear_arith)
            requires
                g < 0x1_0000_0000int,
                i < 0x1_0000_0000int,
        ;
        ((g as u64) << 32u64) | (i as u64)
    }

    pub fn get_idx(&self) -> (r: u32)
        ensures
            r == self.spec_idx(),
    {
        self.idx
    }

    pub fn get_gen(&self) -> (r: u32)
        ensures
            r == self.spec_gen(),
    {
        self.generation
    }

    /// Whether two identifiers are the same.
    pub fn same(&self, other: &Pid) -> (r: bool)
        ensures
            r == (*self == *other),
    {
        self.idx == other.idx && self.generation == other.generation
    }
}

/// Identifiers with the same index and generation are the same.
pub proof fn lemma_pid_ext(p: Pid, q: Pid)
    requires
        p.spec_idx() == q.spec_idx(),
        p.spec_gen() == q.spec_gen(),
    ensures
        p == q,
{
}

/// Turning an identifier into its word and back gives the same identifier.
pub proof fn lemma_pid_raw_round_trip(p: Pid)
    requires
        p.wf(),
    ensures
        0 <= p.raw_of() <= u64::MAX,
        p.raw_of() % 0x1_0000_0000int == p.spec_idx(),
        p.raw_of() / 0x1_0000_0000int == p.spec_gen(),
        p.raw_of() % 0x1_0000_0000int != 0,
{
    let g = p.spec_gen() as int;
    let i = p.spec_idx() as int;
    assert((g * 0x1_0000_0000int + i) / 0x1_0000_0000int == g) by (nonlinear_arith)
        requires
            0 <= i < 0x1_0000_0000int,
    ;
    assert((g * 0x1_0000_0000int + i) % 0x1_0000_0000int == i) by (nonlinear_arith)
        requires
            0 <= i < 0x1_0000_0000int,
    ;
    assert(g * 0x1_0000_0000int + i <= u64::MAX) by (nonlinear_arith)
        requires
            0 <= i < 0x1_0000_0000int,
            0 <= g < 0x1_0000_0000int,
    ;
}

/// Whether a process runs kernel code only or a user program.
#[derive(Clone, Copy, Debug, PartialEq, Eq, Structural)]
pub enum ProcessKind {
    User,
    Kernel,
}

/// How a ready process resumes: in the kernel, or straight into user code.
#[derive(Clone, Copy, Debug, PartialEq, Eq, Structural)]
pub enum ReadyMode {
    Kernel,
    User,
}

/// Where a process stands with the scheduler.
#[derive(Clone, Copy, Debug, PartialEq, Eq, Structural)]
pub enum SchedulerState {
    Loading,
    Ready(ReadyMode),
    WaitPid(Pid),
    WaitKeyboard,
    /// Finished with this exit code; its parent has not collected it yet.
    Zombie(i32),
    Dead,
}

/// The callee-saved registers of a process switched away inside the kernel.
#[derive(Clone, Copy, Debug)]
pub struct KernelContext {
    pub rsp: u64,
    pub rbp: u64,
    pub rbx: u64,
    pub r12: u64,
    pub r13: u64,
    pub r14: u64,
    pub r15: u64,
}

impl KernelContext {
    /// All registers zero.
    pub fn new() -> (r: KernelContext)
        ensures
            r.rsp == 0 && r.rbp == 0 && r.rbx == 0 && r.r12 == 0 && r.r13 == 0 && r.r14 == 0 && r.r15 == 0,
    {
        KernelContext { rsp: 0, rbp: 0, rbx: 0, r12: 0, r13: 0, r14: 0, r15: 0 }
    }
}

/// The user registers of a process interrupted in user code.
#[derive(Clone, Copy, Debug)]
pub struct Registers {
    pub r15: u64,
    pub r14: u64,
    pub r13: u64,
    pub r12: u64,
    pub r11: u64,
    pub r10: u64,
    pub r9: u64,
    pub r8: u64,
    pub rbp: u64,
    pub rdi: u64,
    pub rsi: u64,
    pub rdx: u64,
    pub rcx: u64,
    pub rbx: u64,
    pub rax: u64,
    pub rip: u64,
    pub cs: u64,
    pub rflags: u64,
    pub rsp: u64,
    pub ss: u64,
}

/// Every register is zero.
pub open spec fn zero_regs(r: Registers) -> bool {
    &&& r.rip == 0 && r.rsp == 0 && r.rflags == 0 && r.cs == 0 && r.ss == 0
    &&& r.rax == 0 && r.rbx == 0 && r.rcx == 0 && r.rdx == 0 && r.rsi == 0 && r.rdi == 0 && r.rbp == 0
    &&& r.r8 == 0 && r.r9 == 0 && r.r10 == 0 && r.r11 == 0 && r.r12 == 0 && r.r13 == 0 && r.r14 == 0
    &&& r.r15 == 0
}

/// The callee-saved registers other than the stack pointer are zero.
pub open spec fn context_cleared(c: KernelContext) -> bool {
    c.rbp == 0 && c.rbx == 0 && c.r12 == 0 && c.r13 == 0 && c.r14 == 0 && c.r15 == 0
}

impl Registers {
    /// All registers zero.
    pub fn new() -> (r: Registers)
        ensures
            r.rip == 0 && r.rsp == 0 && r.rflags == 0 && r.cs == 0 && r.ss == 0,
            r.rax == 0 && r.rbx == 0 && r.rcx == 0 && r.rdx == 0 && r.rsi == 0 && r.rdi == 0 && r.rbp == 0,
            r.r8 == 0 && r.r9 == 0 && r.r10 == 0 && r.r11 == 0 && r.r12 == 0 && r.r13 == 0 && r.r14 == 0,
            r.r15 == 0,
    {
        Registers {
            r15: 0,
            r14: 0,
            r13: 0,
            r12: 0,
            r11: 0,
            r10: 0,
            r9: 0,
            r8: 0,
            rbp: 0,
            rdi: 0,
            rsi: 0,
            rdx: 0,
            rcx: 0,
            rbx: 0,
            rax: 0,
            rip: 0,
            cs: 0,
            rflags: 0,
            rsp: 0,
            ss: 0,
        }
    }
}

/// The saved floating-point and vector state of a process.
#[derive(Clone, Copy)]
pub struct FxState {
    pub bytes: [u8; 512],
}

impl FxState {
    /// A zeroed save area.
    pub fn new() -> (r: FxState)
        ensures
            forall|i: int| 0 <= i < 512 ==> r.bytes@[i] == 0,
    {
        FxState { bytes: [0u8; 512] }
    }
}

/// A file opened by a process: the node, the position of the next read or
/// write, and what the process may do with it.
#[derive(Clone, Copy, Debug)]
pub struct OpenedFile {
    pub inode: usize,
    pub offset: usize,
    pub readable: bool,
    pub writable: bool,
}

/// A descriptor slot: the file open there, if any, and how many times the
/// slot was handed out.
#[derive(Clone, Copy, Debug)]
pub struct FdSlot {
    pub generation: u32,
    pub opened_file: Option<OpenedFile>,
}

/// The number of empty slots.
pub open spec fn none_count(s: Seq<FdSlot>) -> nat
    decreases s.len(),
{
    if s.len() == 0 {
        0
    } else {
        none_count(s.drop_last()) + if s.last().opened_file is None {
            1nat
        } else {
            0nat
        }
    }
}

/// The slots with the empty ones at the end dropped.
pub open spec fn trim_free(s: Seq<FdSlot>) -> Seq<FdSlot>
    decreases s.len(),
{
    if s.len() > 0 && s.last().opened_file is None {
        trim_free(s.drop_last())
    } else {
        s
    }
}

/// The first empty slot.
pub open spec fn first_free(s: Seq<FdSlot>) -> int {
    choose|i: int| 0 <= i < s.len() && s[i].opened_file is None && forall|j: int| 0 <= j < i ==> s[j].opened_file is Some
}

pub proof fn lemma_none_count_update(s: Seq<FdSlot>, i: int, v: FdSlot)
    requires
        0 <= i < s.len(),
    ensures
        none_count(s.update(i, v)) + (if s[i].opened_file is None { 1int } else { 0int }) == none_count(s) + (
        if v.opened_file is None {
            1int
        } else {
            0int
        }),
    decreases s.len(),
{
    if i < s.len() - 1 {
        assert(s.update(i, v).drop_last() =~= s.drop_last().update(i, v));
        lemma_none_count_update(s.drop_last(), i, v);
    } else {
        assert(s.update(i, v).drop_last() =~= s.drop_last());
    }
}

proof fn lemma_none_count_pos(s: Seq<FdSlot>, i: int)
    requires
        0 <= i < s.len(),
        s[i].opened_file is None,
    ensures
        none_count(s) > 0,
    decreases s.len(),
{
    if i < s.len() - 1 {
        lemma_none_count_pos(s.drop_last(), i);
    }
}

proof fn lemma_none_count_bound(s: Seq<FdSlot>)
    ensures
        none_count(s) <= s.len(),
    decreases s.len(),
{
    if s.len() > 0 {
        lemma_none_count_bound(s.drop_last());
    }
}

/// The part of a process that the file operations read and change.
pub struct Process {
    pub pid: Pid,
    pub parent: Option<Pid>,
    pub children: Vec<Pid>,
    pub kernel_stack_top: u64,
    pub page_table_phys: u64,
    pub state: SchedulerState,
    pub process_kind: ProcessKind,
    pub saved_regs: Registers,
    pub kernel_context: KernelContext,
    pub fxstate: FxState,
    pub cwd_path: String,
    pub fd_list: Vec<FdSlot>,
    pub free_fd_nb: usize,
    pub heap_start: u64,
    pub heap_break: u64,
    pub heap_max: u64,
}

/// The user heap of a new process: it starts empty at `USER_HEAP_START` and
/// may grow by `USER_HEAP_SIZE` bytes.
pub const USER_HEAP_START_ADDR: u64 = 0x4000_0000u64;
pub const USER_HEAP_MAX_ADDR: u64 = 0x8000_0000u64;

impl Process {
    /// A user process still being loaded: no program yet, the given working
    /// directory, parent, page table and descriptors, an empty heap, every
    /// slot of its descriptors counted in use. Its identifier is a placeholder
    /// until the scheduler gives it one.
    pub fn new_user(
        cwd_path: String,
        parent: Option<Pid>,
        page_table_phys: u64,
        fd_list: Vec<FdSlot>,
        fxstate: FxState,
    ) -> (p: Process)
        ensures
            p.pid.spec_idx() == u32::MAX && p.pid.spec_gen() == u32::MAX,
            p.parent == parent,
            p.children@.len() == 0,
            p.kernel_stack_top == 0,
            p.page_table_phys == page_table_phys,
            p.state == SchedulerState::Loading,
            p.process_kind == ProcessKind::User,
            p.cwd_path@ == cwd_path@,
            p.fd_list@ == fd_list@,
            p.free_fd_nb == 0,
            p.fd_wf() <==> none_count(fd_list@) == 0,
            p.heap_start == USER_HEAP_START_ADDR,
            p.heap_break == USER_HEAP_START_ADDR,
            p.heap_max == USER_HEAP_MAX_ADDR,
            p.fxstate == fxstate,
            zero_regs(p.saved_regs),
            context_cleared(p.kernel_context) && p.kernel_context.rsp == 0,
    {
        Process {
            pid: Pid::new(u32::MAX, u32::MAX),
            parent,
            children: Vec::new(),
            kernel_stack_top: 0,
            page_table_phys,
            state: SchedulerState::Loading,
            process_kind: ProcessKind::User,
            saved_regs: Registers::new(),
            kernel_context: KernelContext::new(),
            fxstate,
            cwd_path,
            fd_list,
            free_fd_nb: 0,
            heap_start: USER_HEAP_START_ADDR,
            heap_break: USER_HEAP_START_ADDR,
            heap_max: USER_HEAP_MAX_ADDR,
        }
    }
}

impl Process {
    /// The idle process: kernel code only, on the kernel's page table, with
    /// no files and no heap. Its kernel context resumes at `kernel_stack_top - 8`,
    /// the word where its entry point is stored.
    pub fn new_idle(pid: Pid, kernel_stack_top: u64, page_table_phys: u64, fxstate: FxState) -> (p: Process)
        requires
            kernel_stack_top >= 8,
        ensures
            p.pid == pid,
            p.parent is None,
            p.children@.len() == 0,
            p.kernel_stack_top == kernel_stack_top,
            p.page_table_phys == page_table_phys,
            p.state == SchedulerState::Ready(ReadyMode::Kernel),
            p.process_kind == ProcessKind::Kernel,
            p.kernel_context.rsp == kernel_stack_top - 8,
            context_cleared(p.kernel_context),
            zero_regs(p.saved_regs),
            p.cwd_path@.len() == 0,
            p.fd_list@.len() == 0,
            p.free_fd_nb == 0,
            p.fd_wf(),
            p.heap_start == 0 && p.heap_break == 0 && p.heap_max == 0,
            p.fxstate == fxstate,
    {
        let mut kernel_context = KernelContext::new();
        kernel_context.rsp = kernel_stack_top - 8;
        Process {
            pid,
            parent: None,
            children: Vec::new(),
            kernel_stack_top,
            page_table_phys,
            state: SchedulerState::Ready(ReadyMode::Kernel),
            process_kind: ProcessKind::Kernel,
            saved_regs: Registers::new(),
            kernel_context,
            fxstate,
            cwd_path: String::new(),
            fd_list: Vec::new(),
            free_fd_nb: 0,
            heap_start: 0,
            heap_break: 0,
            heap_max: 0,
        }
    }
}

impl Process {
    /// The count of free slots is at least the number of empty ones; it is
    /// exactly that as long as no descriptor is closed twice.
    pub open spec fn fd_wf(&self) -> bool {
        self.free_fd_nb >= none_count(self.fd_list@)
    }

    /// Opening a file cannot run out of slots: either none is counted free,
    /// or one is empty.
    pub open spec fn can_add_fd(&self) -> bool {
        self.free_fd_nb == 0 || exists|i: int| 0 <= i < self.fd_list@.len() && self.fd_list@[i].opened_file is None
    }

    /// Whether opening a file cannot run out of slots (`can_add_fd`).
    pub fn has_fd_room(&self) -> (r: bool)
        ensures
            r == self.can_add_fd(),
    {
        if self.free_fd_nb == 0 {
            return true;
        }
        let mut i: usize = 0;
        while i < self.fd_list.len()
            invariant
                i <= self.fd_list@.len(),
                forall|j: int| 0 <= j < i ==> self.fd_list@[j].opened_file is Some,
            decreases self.fd_list@.len() - i,
        {
            if self.fd_list[i].opened_file.is_none() {
                return true;
            }
            i = i + 1;
        }
        false
    }

    /// Puts `file` in the first empty slot, or a new slot at the end when
    /// none is counted free, and returns its descriptor.
    pub fn add_opened_file(&mut self, file: OpenedFile) -> (fd: Fd)
        requires
            old(self).fd_wf(),
            old(self).can_add_fd(),
        ensures
            final(self).fd_wf(),
            final(self).pid == old(self).pid,
            final(self).cwd_path == old(self).cwd_path,
            final(self).state == old(self).state,
            old(self).free_fd_nb == 0 ==> {
                &&& final(self).fd_list@ == old(self).fd_list@.push(FdSlot { generation: 1, opened_file: Some(file) })
                &&& final(self).free_fd_nb == 0
                &&& fd.spec_idx() == old(self).fd_list@.len() as u32
                &&& fd.spec_gen() == 1
            },
            old(self).free_fd_nb != 0 ==> {
                let i = first_free(old(self).fd_list@);
                let g = old(self).fd_list@[i].generation.wrapping_add(1);
                &&& 0 <= i < old(self).fd_list@.len()
                &&& final(self).fd_list@ == old(self).fd_list@.update(i, FdSlot { generation: g, opened_file: Some(file) })
                &&& final(self).free_fd_nb == old(self).free_fd_nb - 1
                &&& fd.spec_idx() == i as u32
                &&& fd.spec_gen() == g
            },
    {
        if self.free_fd_nb == 0 {
            let fd_idx = self.fd_list.len() as u32;
            self.fd_list.push(FdSlot { generation: 1, opened_file: Some(file) });
            proof {
                assert(self.fd_list@.drop_last() =~= old(self).fd_list@);
            }
            return Fd::new(fd_idx, 1);
        }
        let mut idx: usize = 0;
        while idx < self.fd_list.len()
            invariant
                *self == *old(self),
                old(self).fd_wf(),
                self.free_fd_nb != 0,
                old(self).can_add_fd(),
                idx <= self.fd_list@.len(),
                forall|j: int| 0 <= j < idx ==> self.fd_list@[j].opened_file is Some,
            decreases self.fd_list@.len() - idx,
        {
            if self.fd_list[idx].opened_file.is_none() {
                let g = self.fd_list[idx].generation.wrapping_add(1);
                proof {
                    let s = self.fd_list@;
                    assert(0 <= idx < s.len() && s[idx as int].opened_file is None && forall|j: int|
                        0 <= j < idx ==> s[j].opened_file is Some);
                    let f = first_free(s);
                    if f < idx {
                        assert(s[f].opened_file is Some);
                    } else if f > idx {
                        assert(s[idx as int].opened_file is Some);
                    }
                    lemma_none_count_update(s, idx as int, FdSlot { generation: g, opened_file: Some(file) });
                }
                let ghost s0 = self.fd_list@;
                self.fd_list.set(idx, FdSlot { generation: g, opened_file: Some(file) });
                proof {
                    assert(self.fd_list@ == s0.update(idx as int, FdSlot { generation: g, opened_file: Some(file) }));
                    assert(none_count(self.fd_list@) + 1 == none_count(s0));
                }
                self.free_fd_nb = self.free_fd_nb - 1;
                return Fd::new(idx as u32, g);
            }
            idx = idx + 1;
        }
        proof {
            let j = choose|j: int| 0 <= j < self.fd_list@.len() && self.fd_list@[j].opened_file is None;
            assert(self.fd_list@[j].opened_file is Some);
        }
        Fd::new(0, 0)
    }

    /// Empties the slot of `fd` and drops the empty slots at the end of the
    /// table; nothing when the slot does not exist.
    pub fn remove_opened_file(&mut self, fd: Fd) -> (r: Option<()>)
        requires
            old(self).fd_wf(),
            old(self).free_fd_nb < usize::MAX,
        ensures
            final(self).fd_wf(),
            final(self).pid == old(self).pid,
            final(self).cwd_path == old(self).cwd_path,
            final(self).state == old(self).state,
            fd.spec_idx() >= old(self).fd_list@.len() ==> r is None && *final(self) == *old(self),
            fd.spec_idx() < old(self).fd_list@.len() ==> {
                let emptied = old(self).fd_list@.update(
                    fd.spec_idx() as int,
                    FdSlot { opened_file: None, ..old(self).fd_list@[fd.spec_idx() as int] },
                );
                &&& r == Some(())
                &&& final(self).fd_list@ == trim_free(emptied)
                &&& final(self).free_fd_nb == old(self).free_fd_nb + 1 - (emptied.len() - trim_free(emptied).len())
            },
    {
        let i = fd.get_idx() as usize;
        if i >= self.fd_list.len() {
            return None;
        }
        let slot = self.fd_list[i];
        let emptied_slot = FdSlot { opened_file: None, ..slot };
        let ghost emptied = self.fd_list@.update(i as int, emptied_slot);
        proof {
            lemma_none_count_update(self.fd_list@, i as int, emptied_slot);
        }
        self.fd_list.set(i, emptied_slot);
        self.free_fd_nb = self.free_fd_nb + 1;
        while self.fd_list.len() > 0 && self.fd_list[self.fd_list.len() - 1].opened_file.is_none()
            invariant
                self.free_fd_nb >= none_count(self.fd_list@),
                trim_free(self.fd_list@) == trim_free(emptied),
                self.free_fd_nb + emptied.len() == old(self).free_fd_nb + 1 + self.fd_list@.len(),
                self.fd_list@.len() <= emptied.len(),
                self.pid == old(self).pid,
                self.cwd_path == old(self).cwd_path,
                self.state == old(self).state,
            decreases self.fd_list@.len(),
        {
            let ghost s = self.fd_list@;
            proof {
                lemma_none_count_pos(s, s.len() - 1);
            }
            self.fd_list.pop();
            proof {
                assert(self.fd_list@ =~= s.drop_last());
            }
            self.free_fd_nb = self.free_fd_nb - 1;
        }
        proof {
            lemma_trim_free_len(emptied);
            assert(trim_free(self.fd_list@) == self.fd_list@);
        }
        Some(())
    }
}

proof fn lemma_trim_free_len(s: Seq<FdSlot>)
    ensures
        trim_free(s).len() <= s.len(),
    decreases s.len(),
{
    if s.len() > 0 && s.last().opened_file is None {
        lemma_trim_free_len(s.drop_last());
    }
}

} // verus!
