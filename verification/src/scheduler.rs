//! The scheduler's decisions: which process runs next, how the switch is
//! made, and who is woken. Performing the switch (loading the page table and
//! registers) is left to the caller, which gets the decision as a value.

use vstd::prelude::*;
use std::collections::VecDeque;
use crate::process::{KernelContext, Pid, Process, ReadyMode, Registers, SchedulerState};

verus! {

/// A process and the generation of its slot.
pub struct ProcessSlot {
    pub proc: Process,
    pub generation: u32,
}

/// The slot that `pid` names in `procs`, if it names a live one.
pub open spec fn slot_of(procs: Seq<ProcessSlot>, pid: Pid) -> Option<int> {
    let i = pid.spec_idx() as int - 1;
    if pid.wf() && 0 <= i < procs.len() && procs[i].generation == pid.spec_gen() {
        Some(i)
    } else {
        None
    }
}

/// The state of the process `pid` names.
pub open spec fn state_of(procs: Seq<ProcessSlot>, pid: Pid) -> SchedulerState {
    procs[slot_of(procs, pid)->Some_0].proc.state
}

impl Pid {
    /// The process this identifier names, if its slot still holds it.
    pub fn get_process<'a>(self, processes: &'a Vec<ProcessSlot>) -> (r: Option<&'a Process>)
        requires
            self.wf(),
        ensures
            match slot_of(processes@, self) {
                Some(i) => r == Some(&processes@[i].proc),
                None => r is None,
            },
    {
        let i = (self.get_idx() - 1) as usize;
        if i >= processes.len() {
            return None;
        }
        let slot = &processes[i];
        if slot.generation != self.get_gen() {
            return None;
        }
        Some(&slot.proc)
    }
}

/// The idle process, which runs when nothing else can.
pub fn idle_process_pid() -> (r: Pid)
    ensures
        r.wf(),
        r.spec_idx() == 1,
        r.spec_gen() == 1,
{
    Pid::new(1, 1)
}

/// The first user process; it may not exit.
pub fn init_process_pid() -> (r: Pid)
    ensures
        r.wf(),
        r.spec_idx() == 2,
        r.spec_gen() == 1,
{
    Pid::new(2, 1)
}

/// How to leave the current process for the next one.
pub enum SwitchTarget {
    /// Keep running; the interrupted registers (maybe replaced) are resumed.
    ContinueCurrent,
    /// Enter user code with these registers, abandoning the current stack.
    SwitchUser(Registers),
    /// Save the kernel context of `old_ctx` and resume that of `new_ctx`.
    SwitchKernelToKernel { old_ctx: Pid, new_ctx: Pid },
    /// Save the kernel context of `old_ctx` and enter user code with `regs`.
    SwitchKernelToUser { old_ctx: Pid, regs: Registers },
}

/// A scheduling decision: the page table and kernel stack to load, if the
/// running process changes, how to switch, and the registers the
/// interrupted frame is to resume with, if they change.
pub struct Decision {
    pub load: Option<(u64, u64)>,
    pub target: SwitchTarget,
    pub resume: Option<Registers>,
}

/// The processes and the queues of those ready and of those waiting for a key.
pub struct Scheduler {
    pub processes: Vec<ProcessSlot>,
    pub runnable_processes: VecDeque<Pid>,
    pub current_process: Option<Pid>,
    pub processes_waiting_keyboard: VecDeque<Pid>,
}

/// `p` is ready to run.
pub open spec fn is_ready(s: SchedulerState) -> bool {
    s is Ready
}

/// The processes after the state of slot `i` is set to `st`.
pub open spec fn with_state(procs: Seq<ProcessSlot>, i: int, st: SchedulerState) -> Seq<ProcessSlot> {
    procs.update(i, ProcessSlot { proc: Process { state: st, ..procs[i].proc }, ..procs[i] })
}

impl Scheduler {
    /// An empty scheduler.
    pub fn new() -> (r: Scheduler)
        ensures
            r.processes@.len() == 0,
            r.runnable_processes@.len() == 0,
            r.current_process is None,
            r.processes_waiting_keyboard@.len() == 0,
    {
        Scheduler {
            processes: Vec::new(),
            runnable_processes: VecDeque::new(),
            current_process: None,
            processes_waiting_keyboard: VecDeque::new(),
        }
    }

    /// Whether `pid` is queued as ready.
    fn runnable_contains(&self, pid: Pid) -> (r: bool)
        ensures
            r == self.runnable_processes@.contains(pid),
    {
        let mut i: usize = 0;
        while i < self.runnable_processes.len()
            invariant
                i <= self.runnable_processes@.len(),
                forall|j: int| 0 <= j < i ==> self.runnable_processes@[j] != pid,
            decreases self.runnable_processes@.len() - i,
        {
            if self.runnable_processes[i].same(&pid) {
                proof {
                    assert(self.runnable_processes@[i as int] == pid);
                }
                return true;
            }
            i = i + 1;
        }
        false
    }

    /// Sets the state of the process `pid` names.
    pub(crate) fn set_state_of(&mut self, pid: Pid, st: SchedulerState)
        requires
            slot_of(old(self).processes@, pid) is Some,
        ensures
            final(self).processes@ == with_state(old(self).processes@, slot_of(old(self).processes@, pid)->Some_0, st),
            final(self).runnable_processes@ == old(self).runnable_processes@,
            final(self).current_process == old(self).current_process,
            final(self).processes_waiting_keyboard@ == old(self).processes_waiting_keyboard@,
    {
        let i = (pid.get_idx() - 1) as usize;
        self.set_state(i, st);
    }

    /// Replaces the children of the process in slot `i`.
    pub(crate) fn set_children(&mut self, i: usize, children: Vec<Pid>)
        requires
            i < old(self).processes@.len(),
        ensures
            final(self).processes@.len() == old(self).processes@.len(),
            final(self).processes@[i as int].proc.children@ == children@,
            final(self).processes@[i as int].proc == (Process { children: final(self).processes@[i as int].proc.children, ..old(self).processes@[i as int].proc }),
            final(self).processes@[i as int].generation == old(self).processes@[i as int].generation,
            forall|j: int| 0 <= j < old(self).processes@.len() && j != i ==> final(self).processes@[j] == old(self).processes@[j],
            final(self).runnable_processes@ == old(self).runnable_processes@,
            final(self).current_process == old(self).current_process,
            final(self).processes_waiting_keyboard@ == old(self).processes_waiting_keyboard@,
    {
        let mut procs = Vec::new();
        std::mem::swap(&mut procs, &mut self.processes);
        let mut slot = procs.remove(i);
        slot.proc.children = children;
        procs.insert(i, slot);
        std::mem::swap(&mut procs, &mut self.processes);
    }

    /// Sets the state of the process in slot `i`.
    pub(crate) fn set_state(&mut self, i: usize, st: SchedulerState)
        requires
            i < old(self).processes@.len(),
        ensures
            final(self).processes@ == with_state(old(self).processes@, i as int, st),
            final(self).runnable_processes@ == old(self).runnable_processes@,
            final(self).current_process == old(self).current_process,
            final(self).processes_waiting_keyboard@ == old(self).processes_waiting_keyboard@,
    {
        let ghost before = self.processes@;
        let mut procs = Vec::new();
        std::mem::swap(&mut procs, &mut self.processes);
        let mut slot = procs.remove(i);
        slot.proc.state = st;
        procs.insert(i, slot);
        std::mem::swap(&mut procs, &mut self.processes);
        proof {
            assert(self.processes@ =~= with_state(before, i as int, st));
        }
    }

    /// Marks `pid` ready in `ready_mode` and queues it, unless it is running
    /// or already queued.
    pub fn make_runnable_inner(&mut self, pid: Pid, ready_mode: ReadyMode)
        requires
            pid.wf(),
            slot_of(old(self).processes@, pid) is Some,
        ensures
            final(self).processes@ == with_state(
                old(self).processes@,
                slot_of(old(self).processes@, pid)->Some_0,
                SchedulerState::Ready(ready_mode),
            ),
            final(self).runnable_processes@ == if old(self).current_process != Some(pid)
                && !old(self).runnable_processes@.contains(pid) {
                old(self).runnable_processes@.push(pid)
            } else {
                old(self).runnable_processes@
            },
            final(self).current_process == old(self).current_process,
            final(self).processes_waiting_keyboard@ == old(self).processes_waiting_keyboard@,
    {
        let i = (pid.get_idx() - 1) as usize;
        self.set_state(i, SchedulerState::Ready(ready_mode));
        let is_current = match self.current_process {
            Some(c) => c.same(&pid),
            None => false,
        };
        if !is_current && !self.runnable_contains(pid) {
            self.runnable_processes.push_back(pid);
        }
    }

    /// Makes `pid` ready to resume in user code.
    pub fn make_runnable(&mut self, pid: Pid)
        requires
            pid.wf(),
            slot_of(old(self).processes@, pid) is Some,
        ensures
            final(self).processes@ == with_state(
                old(self).processes@,
                slot_of(old(self).processes@, pid)->Some_0,
                SchedulerState::Ready(ReadyMode::User),
            ),
            final(self).runnable_processes@ == if old(self).current_process != Some(pid)
                && !old(self).runnable_processes@.contains(pid) {
                old(self).runnable_processes@.push(pid)
            } else {
                old(self).runnable_processes@
            },
            final(self).current_process == old(self).current_process,
            final(self).processes_waiting_keyboard@ == old(self).processes_waiting_keyboard@,
    {
        self.make_runnable_inner(pid, ReadyMode::User);
    }

    /// Makes `pid` ready to resume in the kernel.
    pub fn make_runnable_kernel(&mut self, pid: Pid)
        requires
            pid.wf(),
            slot_of(old(self).processes@, pid) is Some,
        ensures
            final(self).processes@ == with_state(
                old(self).processes@,
                slot_of(old(self).processes@, pid)->Some_0,
                SchedulerState::Ready(ReadyMode::Kernel),
            ),
            final(self).runnable_processes@ == if old(self).current_process != Some(pid)
                && !old(self).runnable_processes@.contains(pid) {
                old(self).runnable_processes@.push(pid)
            } else {
                old(self).runnable_processes@
            },
            final(self).current_process == old(self).current_process,
            final(self).processes_waiting_keyboard@ == old(self).processes_waiting_keyboard@,
    {
        self.make_runnable_inner(pid, ReadyMode::Kernel);
    }

    /// A key was typed: the oldest process waiting for one, if any, is made
    /// ready to resume in the kernel.
    pub fn new_char(&mut self)
        requires
            forall|j: int|
                0 <= j < old(self).processes_waiting_keyboard@.len() ==> slot_of(
                    old(self).processes@,
                    #[trigger] old(self).processes_waiting_keyboard@[j],
                ) is Some,
        ensures
            old(self).processes_waiting_keyboard@.len() == 0 ==> *final(self) == *old(self),
            old(self).processes_waiting_keyboard@.len() > 0 ==> {
                let pid = old(self).processes_waiting_keyboard@[0];
                &&& final(self).processes_waiting_keyboard@ == old(self).processes_waiting_keyboard@.drop_first()
                &&& final(self).processes@ == with_state(
                    old(self).processes@,
                    slot_of(old(self).processes@, pid)->Some_0,
                    SchedulerState::Ready(ReadyMode::Kernel),
                )
                &&& final(self).runnable_processes@ == if old(self).current_process != Some(pid)
                    && !old(self).runnable_processes@.contains(pid) {
                    old(self).runnable_processes@.push(pid)
                } else {
                    old(self).runnable_processes@
                }
                &&& final(self).current_process == old(self).current_process
            },
    {
        if self.processes_waiting_keyboard.len() == 0 {
            return;
        }
        let ghost w = self.processes_waiting_keyboard@;
        match self.processes_waiting_keyboard.pop_front() {
            Some(pid) => {
                proof {
                    assert(slot_of(self.processes@, w[0]) is Some);
                    assert(pid.wf());
                }
                self.make_runnable_inner(pid, ReadyMode::Kernel);
            },
            None => {},
        }
    }

    /// Records that the current process waits for a key and queues it.
    pub fn wait_keyboard(&mut self)
        requires
            old(self).current_process matches Some(c) && slot_of(old(self).processes@, c) is Some,
        ensures
            ({
                let c = old(self).current_process->Some_0;
                &&& final(self).processes@ == with_state(
                    old(self).processes@,
                    slot_of(old(self).processes@, c)->Some_0,
                    SchedulerState::WaitKeyboard,
                )
                &&& final(self).processes_waiting_keyboard@ == old(self).processes_waiting_keyboard@.push(c)
                &&& final(self).runnable_processes@ == old(self).runnable_processes@
                &&& final(self).current_process == old(self).current_process
            }),
    {
        let c = match self.current_process {
            Some(c) => c,
            None => Pid::new(1, 0),
        };
        let i = (c.get_idx() - 1) as usize;
        self.set_state(i, SchedulerState::WaitKeyboard);
        self.processes_waiting_keyboard.push_back(c);
    }

    /// Saves `regs` as the user registers of the process in slot `i`.
    fn set_saved_regs(&mut self, i: usize, regs: Registers)
        requires
            i < old(self).processes@.len(),
        ensures
            final(self).processes@ == with_regs(old(self).processes@, i as int, regs),
            final(self).runnable_processes@ == old(self).runnable_processes@,
            final(self).current_process == old(self).current_process,
            final(self).processes_waiting_keyboard@ == old(self).processes_waiting_keyboard@,
    {
        let ghost before = self.processes@;
        let mut procs = Vec::new();
        std::mem::swap(&mut procs, &mut self.processes);
        let mut slot = procs.remove(i);
        slot.proc.saved_regs = regs;
        procs.insert(i, slot);
        std::mem::swap(&mut procs, &mut self.processes);
        proof {
            assert(self.processes@ =~= with_regs(before, i as int, regs));
        }
    }

    /// Makes `next_pid` the running process and says how to switch to it
    /// from `current_pid`; `interrupted` when the switch happens on an
    /// interrupt whose user registers can be replaced.
    fn schedule_get_switch_target(&mut self, current_pid: Pid, next_pid: Pid, interrupted: bool) -> (r: Decision)
        requires
            slot_of(old(self).processes@, current_pid) is Some,
            slot_of(old(self).processes@, next_pid) is Some,
            is_ready(state_of(old(self).processes@, next_pid)),
        ensures
            ({
                let procs = old(self).processes@;
                let next = procs[slot_of(procs, next_pid)->Some_0].proc;
                let in_kernel = state_of(procs, current_pid) is WaitPid || state_of(procs, current_pid) is WaitKeyboard;
                &&& final(self).current_process == Some(next_pid)
                &&& final(self).processes@ == procs
                &&& final(self).runnable_processes@ == old(self).runnable_processes@
                &&& final(self).processes_waiting_keyboard@ == old(self).processes_waiting_keyboard@
                &&& r.load == Some((next.page_table_phys, next.kernel_stack_top))
                &&& match next.state {
                    SchedulerState::Ready(ReadyMode::User) => if interrupted {
                        if in_kernel {
                            &&& r.target == (SwitchTarget::SwitchKernelToUser { old_ctx: current_pid, regs: next.saved_regs })
                            &&& r.resume is None
                        } else {
                            &&& r.target is ContinueCurrent
                            &&& r.resume == Some(next.saved_regs)
                        }
                    } else {
                        &&& r.target == SwitchTarget::SwitchUser(next.saved_regs)
                        &&& r.resume is None
                    },
                    _ => {
                        &&& r.target == (SwitchTarget::SwitchKernelToKernel { old_ctx: current_pid, new_ctx: next_pid })
                        &&& r.resume is None
                    },
                }
            }),
    {
        self.current_process = Some(next_pid);
        let ni = (next_pid.get_idx() - 1) as usize;
        let ci = (current_pid.get_idx() - 1) as usize;
        let next = &self.processes[ni].proc;
        let load = Some((next.page_table_phys, next.kernel_stack_top));
        let current_state = self.processes[ci].proc.state;
        let current_is_in_kernel = match current_state {
            SchedulerState::WaitPid(_) => true,
            SchedulerState::WaitKeyboard => true,
            _ => false,
        };
        match next.state {
            SchedulerState::Ready(ReadyMode::User) => {
                let next_regs = next.saved_regs;
                if interrupted {
                    if current_is_in_kernel {
                        Decision {
                            load,
                            target: SwitchTarget::SwitchKernelToUser { old_ctx: current_pid, regs: next_regs },
                            resume: None,
                        }
                    } else {
                        Decision { load, target: SwitchTarget::ContinueCurrent, resume: Some(next_regs) }
                    }
                } else {
                    Decision { load, target: SwitchTarget::SwitchUser(next_regs), resume: None }
                }
            },
            _ => Decision {
                load,
                target: SwitchTarget::SwitchKernelToKernel { old_ctx: current_pid, new_ctx: next_pid },
                resume: None,
            },
        }
    }
}

/// The processes after the saved registers of slot `i` are set to `regs`.
pub open spec fn with_regs(procs: Seq<ProcessSlot>, i: int, regs: Registers) -> Seq<ProcessSlot> {
    procs.update(i, ProcessSlot { proc: Process { saved_regs: regs, ..procs[i].proc }, ..procs[i] })
}

/// The decision to switch from the current process to `next`, as
/// `schedule_get_switch_target` makes it, given the processes `procs`.
pub open spec fn switch_decision(procs: Seq<ProcessSlot>, current: Pid, next: Pid, interrupted: bool, r: Decision) -> bool {
    let n = procs[slot_of(procs, next)->Some_0].proc;
    let in_kernel = state_of(procs, current) is WaitPid || state_of(procs, current) is WaitKeyboard;
    &&& r.load == Some((n.page_table_phys, n.kernel_stack_top))
    &&& match n.state {
        SchedulerState::Ready(ReadyMode::User) => if interrupted {
            if in_kernel {
                &&& r.target == (SwitchTarget::SwitchKernelToUser { old_ctx: current, regs: n.saved_regs })
                &&& r.resume is None
            } else {
                &&& r.target is ContinueCurrent
                &&& r.resume == Some(n.saved_regs)
            }
        } else {
            &&& r.target == SwitchTarget::SwitchUser(n.saved_regs)
            &&& r.resume is None
        },
        _ => {
            &&& r.target == (SwitchTarget::SwitchKernelToKernel { old_ctx: current, new_ctx: next })
            &&& r.resume is None
        },
    }
}

/// The idle process identifier.
pub open spec fn idle_pid_spec() -> Pid {
    choose|p: Pid| p.spec_idx() == 1 && p.spec_gen() == 1
}

/// What the scheduler needs to decide without failing: a running process
/// that exists, queued processes that exist and are ready, and an idle
/// process that exists and is ready.
pub open spec fn can_schedule(s: &Scheduler) -> bool {
    &&& s.current_process matches Some(c) && slot_of(s.processes@, c) is Some
    &&& forall|j: int|
        0 <= j < s.runnable_processes@.len() ==> slot_of(s.processes@, #[trigger] s.runnable_processes@[j]) is Some
            && is_ready(state_of(s.processes@, s.runnable_processes@[j]))
    &&& slot_of(s.processes@, idle_pid_spec()) is Some && is_ready(state_of(s.processes@, idle_pid_spec()))
}

/// What `schedule` does to the scheduler `old`, with the interrupted
/// registers going from `old_regs` to `new_regs`, deciding `r`.
pub open spec fn scheduled(old: &Scheduler, new: &Scheduler, old_regs: Registers, new_regs: Registers, r: Decision) -> bool {
    &&& new.processes_waiting_keyboard@ == old.processes_waiting_keyboard@
    &&& ({
                let c = old.current_process->Some_0;
                let ci = slot_of(old.processes@, c)->Some_0;
                let saved = with_regs(old.processes@, ci, old_regs);
                let ready = is_ready(state_of(old.processes@, c));
                let q = old.runnable_processes@;
                if q.len() == 0 && ready {
                    &&& r.load is None && r.target is ContinueCurrent && r.resume is None
                    &&& new.processes@ == saved
                    &&& new.runnable_processes@ == q
                    &&& new.current_process == old.current_process
                    &&& new_regs == old_regs
                } else {
                    let next = if q.len() > 0 { q[0] } else { idle_pid_spec() };
                    let procs = if q.len() > 0 && ready && c != next {
                        with_state(saved, ci, SchedulerState::Ready(ReadyMode::User))
                    } else {
                        saved
                    };
                    &&& new.processes@ == procs
                    &&& new.runnable_processes@ == if q.len() > 0 { q.drop_first() } else { q }
                    &&& new.current_process == Some(next)
                    &&& switch_decision(procs, c, next, true, r)
                    &&& new_regs == match r.resume {
                        Some(n) => n,
                        None => old_regs,
                    }
                }
            })
}

/// What `kill_current_and_schedule` does to the scheduler `old` when the
/// running process ends with `exit_code`, deciding `r`.
pub open spec fn killed(old: &Scheduler, new: &Scheduler, exit_code: i32, r: Decision) -> bool {
    &&& new.processes_waiting_keyboard@ == old.processes_waiting_keyboard@
    &&& ({
                let c = old.current_process->Some_0;
                let ci = slot_of(old.processes@, c)->Some_0;
                let dead = with_state(old.processes@, ci, SchedulerState::Zombie(exit_code));
                let parent = old.processes@[ci].proc.parent;
                let woken = parent matches Some(p) && state_of(dead, p) == SchedulerState::WaitPid(c);
                let procs = if woken {
                    with_state(dead, slot_of(dead, parent->Some_0)->Some_0, SchedulerState::Ready(ReadyMode::Kernel))
                } else {
                    dead
                };
                let q0 = old.runnable_processes@;
                let q1 = if woken && !q0.contains(parent->Some_0) && parent->Some_0 != c {
                    q0.push(parent->Some_0)
                } else {
                    q0
                };
                let next = if q1.len() > 0 { q1[0] } else { idle_pid_spec() };
                &&& new.processes@ == procs
                &&& new.runnable_processes@ == if q1.len() > 0 { q1.drop_first() } else { q1 }
                &&& new.current_process == Some(next)
                &&& switch_decision(procs, c, next, false, r)
            })
}

/// Slots keep the identifiers they answer to when only a state or saved
/// registers change.
pub(crate) proof fn lemma_same_generations(a: Seq<ProcessSlot>, b: Seq<ProcessSlot>, p: Pid)
    requires
        a.len() == b.len(),
        forall|j: int| 0 <= j < a.len() ==> #[trigger] a[j].generation == b[j].generation,
    ensures
        slot_of(a, p) == slot_of(b, p),
{
}

/// Scheduling keeps the scheduler able to schedule again: the running
/// process exists, every queued process exists and is ready, and the idle
/// process exists and is ready.
pub proof fn lemma_schedule_keeps_schedulable(
    old: &Scheduler,
    new: &Scheduler,
    old_regs: Registers,
    new_regs: Registers,
    r: Decision,
)
    requires
        can_schedule(old),
        scheduled(old, new, old_regs, new_regs, r),
    ensures
        can_schedule(new),
{
    let c = old.current_process->Some_0;
    let ci = slot_of(old.processes@, c)->Some_0;
    let ps = old.processes@;
    let saved = with_regs(ps, ci, old_regs);
    let q = old.runnable_processes@;
    let ready = is_ready(state_of(ps, c));
    let np = new.processes@;
    assert(np.len() == ps.len());
    assert forall|j: int| 0 <= j < ps.len() implies #[trigger] ps[j].generation == np[j].generation by {}
    assert forall|p: Pid| slot_of(np, p) == slot_of(ps, p) by {
        lemma_same_generations(np, ps, p);
    }
    assert forall|p: Pid| #[trigger] slot_of(ps, p) is Some implies (is_ready(state_of(ps, p)) ==> is_ready(
        state_of(np, p),
    )) by {
        let i = slot_of(ps, p)->Some_0;
        assert(slot_of(np, p) == Some(i));
        if i != ci {
            assert(np[i].proc.state == ps[i].proc.state);
        }
    }
    let nq = new.runnable_processes@;
    assert forall|j: int| 0 <= j < nq.len() implies slot_of(np, #[trigger] nq[j]) is Some && is_ready(state_of(np, nq[j])) by {
        if q.len() > 0 {
            assert(nq[j] == q[j + 1]);
            assert(slot_of(ps, q[j + 1]) is Some && is_ready(state_of(ps, q[j + 1])));
        } else {
            assert(nq[j] == q[j]);
            assert(slot_of(ps, q[j]) is Some && is_ready(state_of(ps, q[j])));
        }
    }
    let idle = idle_pid_spec();
    assert(slot_of(ps, idle) is Some && is_ready(state_of(ps, idle)));
    if !(q.len() == 0 && ready) && q.len() > 0 {
        assert(slot_of(ps, q[0]) is Some);
    }
}

/// Ending the running process keeps the scheduler able to schedule again.
pub proof fn lemma_kill_keeps_schedulable(old: &Scheduler, new: &Scheduler, exit_code: i32, r: Decision)
    requires
        can_schedule(old),
        ({
            let c = old.current_process->Some_0;
            &&& c != idle_pid_spec()
            &&& !old.runnable_processes@.contains(c)
            &&& old.processes@[slot_of(old.processes@, c)->Some_0].proc.parent matches Some(p) ==> slot_of(
                old.processes@,
                p,
            ) is Some
        }),
        killed(old, new, exit_code, r),
    ensures
        can_schedule(new),
{
    let c = old.current_process->Some_0;
    let ci = slot_of(old.processes@, c)->Some_0;
    let ps = old.processes@;
    let np = new.processes@;
    let dead = with_state(ps, ci, SchedulerState::Zombie(exit_code));
    assert forall|p: Pid| slot_of(dead, p) == slot_of(ps, p) by {
        lemma_same_generations(dead, ps, p);
    }
    assert forall|p: Pid| slot_of(np, p) == slot_of(ps, p) by {
        lemma_same_generations(np, ps, p);
    }
    let q0 = old.runnable_processes@;
    let parent = ps[ci].proc.parent;
    let woken = parent matches Some(p) && state_of(dead, p) == SchedulerState::WaitPid(c);
    assert forall|p: Pid|
        #[trigger] slot_of(ps, p) is Some && is_ready(state_of(ps, p)) && p != c implies is_ready(state_of(np, p)) by {
        let i = slot_of(ps, p)->Some_0;
        if i == ci {
            assert(ps[i].generation == p.spec_gen() && ps[ci].generation == c.spec_gen());
            crate::process::lemma_pid_ext(p, c);
        }
        if woken && i == slot_of(dead, parent->Some_0)->Some_0 {
        } else {
            assert(np[i].proc.state == ps[i].proc.state);
        }
    }
    let nq = new.runnable_processes@;
    let q1 = if woken && !q0.contains(parent->Some_0) && parent->Some_0 != c {
        q0.push(parent->Some_0)
    } else {
        q0
    };
    assert forall|j: int| 0 <= j < q1.len() implies slot_of(np, #[trigger] q1[j]) is Some && is_ready(
        state_of(np, q1[j]),
    ) by {
        if j < q0.len() {
            assert(q1[j] == q0[j]);
            assert(slot_of(ps, q0[j]) is Some && is_ready(state_of(ps, q0[j])));
            assert(q0[j] != c) by {
                if q0[j] == c {
                    assert(q0.contains(c));
                }
            }
        } else {
            assert(q1[j] == parent->Some_0);
        }
    }
    assert forall|j: int| 0 <= j < nq.len() implies slot_of(np, #[trigger] nq[j]) is Some && is_ready(
        state_of(np, nq[j]),
    ) by {
        assert(nq[j] == q1[j + 1]);
    }
    let idle = idle_pid_spec();
    assert(slot_of(ps, idle) is Some && is_ready(state_of(ps, idle)));
    assert(is_ready(state_of(np, idle)));
    if q1.len() > 0 {
        assert(slot_of(np, q1[0]) is Some);
    }
}

proof fn lemma_idle_pid(p: Pid)
    requires
        p.spec_idx() == 1 && p.spec_gen() == 1,
    ensures
        p == idle_pid_spec(),
{
    let q = idle_pid_spec();
    assert(q.spec_idx() == 1 && q.spec_gen() == 1);
    crate::process::lemma_pid_ext(p, q);
}

impl Scheduler {
    /// The timer or a system call asks to reschedule: the interrupted
    /// registers `regs` are saved into the current process; the oldest ready
    /// process runs next, else the current one goes on if it is ready, else
    /// the idle process runs. A ready current process that gives way is
    /// marked ready for user code.
    #[verifier::rlimit(30)]
    pub fn schedule(&mut self, regs: &mut Registers) -> (r: Decision)
        requires
            can_schedule(old(self)),
        ensures
            scheduled(old(self), final(self), *old(regs), *final(regs), r),
            final(self).processes_waiting_keyboard@ == old(self).processes_waiting_keyboard@,
    {
        let current_pid = match self.current_process {
            Some(c) => c,
            None => Pid::new(1, 0),
        };
        let ci = (current_pid.get_idx() - 1) as usize;
        self.set_saved_regs(ci, *regs);
        let current_is_ready = match self.processes[ci].proc.state {
            SchedulerState::Ready(_) => true,
            _ => false,
        };
        let ghost q = self.runnable_processes@;
        let next = match self.runnable_processes.pop_front() {
            Some(next) => {
                proof {
                    assert(slot_of(old(self).processes@, q[0]) is Some);
                    assert(is_ready(state_of(old(self).processes@, q[0])));
                }
                if current_is_ready && !current_pid.same(&next) {
                    self.make_runnable(current_pid);
                }
                next
            },
            None => {
                if current_is_ready {
                    return Decision { load: None, target: SwitchTarget::ContinueCurrent, resume: None };
                } else {
                    let idle = idle_process_pid();
                    proof {
                        lemma_idle_pid(idle);
                    }
                    idle
                }
            },
        };
        let d = self.schedule_get_switch_target(current_pid, next, true);
        match d.resume {
            Some(n) => {
                *regs = n;
            },
            None => {},
        }
        d
    }

    /// The current process ends with `exit_code` (it crashed or exited): it
    /// becomes a zombie, a parent waiting for it is woken, and the oldest
    /// ready process, else the idle one, runs next.
    #[verifier::rlimit(30)]
    pub fn kill_current_and_schedule(&mut self, exit_code: i32) -> (r: Decision)
        requires
            can_schedule(old(self)),
            ({
                let c = old(self).current_process->Some_0;
                &&& !(c.spec_idx() == 2 && c.spec_gen() == 1)
                &&& c != idle_pid_spec()
                &&& !old(self).runnable_processes@.contains(c)
                &&& old(self).processes@[slot_of(old(self).processes@, c)->Some_0].proc.parent matches Some(p) ==> slot_of(
                    old(self).processes@,
                    p,
                ) is Some
            }),
        ensures
            killed(old(self), final(self), exit_code, r),
    {
        let current_pid = match self.current_process {
            Some(c) => c,
            None => Pid::new(1, 0),
        };
        let ci = (current_pid.get_idx() - 1) as usize;
        let ghost p0 = self.processes@;
        self.set_state(ci, SchedulerState::Zombie(exit_code));
        let parent_pid = self.processes[ci].proc.parent;
        match parent_pid {
            Some(parent) => {
                let pi = (parent.get_idx() - 1) as usize;
                let waiting = match self.processes[pi].proc.state {
                    SchedulerState::WaitPid(w) => w.same(&current_pid),
                    _ => false,
                };
                if waiting {
                    self.make_runnable_kernel(parent);
                }
            },
            None => {},
        }
        let ghost q1 = self.runnable_processes@;
        let next = match self.runnable_processes.pop_front() {
            Some(n) => n,
            None => {
                let idle = idle_process_pid();
                proof {
                    lemma_idle_pid(idle);
                }
                idle
            },
        };
        proof {
            let q0 = old(self).runnable_processes@;
            let ps = self.processes@;
            if q1.len() > 0 {
                if q0.len() == 0 {
                    assert(next == parent_pid->Some_0);
                } else {
                    assert(q1[0] == q0[0]);
                    assert(next == q0[0]);
                    assert(slot_of(p0, next) is Some && is_ready(state_of(p0, next)));
                    if next.spec_idx() == current_pid.spec_idx() {
                        assert(p0[ci as int].generation == next.spec_gen());
                        crate::process::lemma_pid_ext(next, current_pid);
                        assert(q0.contains(current_pid));
                    }
                }
            } else {
                let idle = idle_pid_spec();
                assert(next == idle);
                if idle.spec_idx() == current_pid.spec_idx() {
                    assert(p0[ci as int].generation == idle.spec_gen());
                    crate::process::lemma_pid_ext(idle, current_pid);
                }
            }
        }
        self.schedule_get_switch_target(current_pid, next, false)
    }

    /// The idle process looks for work: the oldest ready process runs, if any.
    pub fn idle_schedule(&mut self) -> (r: Decision)
        requires
            can_schedule(old(self)),
        ensures
            old(self).runnable_processes@.len() == 0 ==> r.load is None && r.target is ContinueCurrent && r.resume is None
                && *final(self) == *old(self),
            old(self).runnable_processes@.len() > 0 ==> {
                let next = old(self).runnable_processes@[0];
                &&& final(self).processes@ == old(self).processes@
                &&& final(self).runnable_processes@ == old(self).runnable_processes@.drop_first()
                &&& final(self).current_process == Some(next)
                &&& switch_decision(old(self).processes@, old(self).current_process->Some_0, next, false, r)
            },
    {
        if self.runnable_processes.len() == 0 {
            return Decision { load: None, target: SwitchTarget::ContinueCurrent, resume: None };
        }
        let ghost q = self.runnable_processes@;
        let next = match self.runnable_processes.pop_front() {
            Some(n) => n,
            None => idle_process_pid(),
        };
        proof {
            assert(next == q[0]);
            assert(slot_of(self.processes@, q[0]) is Some);
        }
        let current_pid = match self.current_process {
            Some(c) => c,
            None => Pid::new(1, 0),
        };
        self.schedule_get_switch_target(current_pid, next, false)
    }
}

impl Scheduler {
    /// Makes `pid` the running process and gives what entering it takes: its
    /// page table, its kernel stack top and its saved user registers; none
    /// when `pid` names no process.
    pub fn start_first_process(&mut self, pid: Pid) -> (r: Option<(u64, u64, Registers)>)
        requires
            pid.wf(),
        ensures
            match slot_of(old(self).processes@, pid) {
                None => r is None && *final(self) == *old(self),
                Some(i) => {
                    let p = old(self).processes@[i].proc;
                    &&& r == Some((p.page_table_phys, p.kernel_stack_top, p.saved_regs))
                    &&& final(self).current_process == Some(pid)
                    &&& final(self).processes@ == old(self).processes@
                    &&& final(self).runnable_processes@ == old(self).runnable_processes@
                    &&& final(self).processes_waiting_keyboard@ == old(self).processes_waiting_keyboard@
                },
            },
    {
        let found = match pid.get_process(&self.processes) {
            Some(p) => Some((p.page_table_phys, p.kernel_stack_top, p.saved_regs)),
            None => None,
        };
        if found.is_some() {
            self.current_process = Some(pid);
        }
        found
    }
}

} // verus!
