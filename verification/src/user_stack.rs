//! The initial stack of a user process and its first registers.
//!
//! The kernel copies each argument to the top of the user stack, then below
//! them, on a 16-byte boundary, a block that the user runtime reads at start:
//! the stack canary, the random seed, the argument count and one
//! (length, address) pair per argument.

use vstd::prelude::*;
use crate::abi::RNG_SEED_SIZE;
use crate::chacha::le64;
use crate::process::{Process, ReadyMode, Registers, SchedulerState};

verus! {

pub const USER_STACK_TOP: u64 = 0x0000_7fff_ffff_f000u64;
pub const USER_STACK_SIZE: u64 = 0x10_0000u64;

/// The flags register of a process entering user mode: interrupts enabled and
/// the reserved bit set.
pub const USER_RFLAGS: u64 = 0x202u64;

/// The eight bytes of `v`, least significant first.
pub open spec fn le_bytes(v: u64) -> Seq<u8> {
    seq![v as u8, (v >> 8u64) as u8, (v >> 16u64) as u8, (v >> 24u64) as u8, (v >> 32u64) as u8,
        (v >> 40u64) as u8, (v >> 48u64) as u8, (v >> 56u64) as u8]
}

/// Reading back the eight bytes of a number gives the number.
pub proof fn lemma_le_bytes_round_trip(v: u64)
    ensures
        le64(le_bytes(v)) == v,
        le_bytes(v).len() == 8,
{
    let b = le_bytes(v);
    assert(b[0] == v as u8 && b[1] == (v >> 8u64) as u8 && b[2] == (v >> 16u64) as u8 && b[3] == (v >> 24u64) as u8
        && b[4] == (v >> 32u64) as u8 && b[5] == (v >> 40u64) as u8 && b[6] == (v >> 48u64) as u8
        && b[7] == (v >> 56u64) as u8);
    assert(((v as u8) as u64) | ((((v >> 8u64) as u8) as u64) << 8u64) | ((((v >> 16u64) as u8) as u64) << 16u64)
        | ((((v >> 24u64) as u8) as u64) << 24u64) | ((((v >> 32u64) as u8) as u64) << 32u64) | ((((v
        >> 40u64) as u8) as u64) << 40u64) | ((((v >> 48u64) as u8) as u64) << 48u64) | ((((v >> 56u64)
        as u8) as u64) << 56u64) == v) by (bit_vector);
}

/// The eight bytes of `v`, least significant first.
pub fn u64_to_le(v: u64) -> (r: Vec<u8>)
    ensures
        r@ == le_bytes(v),
{
    let r = vec![v as u8, (v >> 8u64) as u8, (v >> 16u64) as u8, (v >> 24u64) as u8, (v >> 32u64) as u8,
        (v >> 40u64) as u8, (v >> 48u64) as u8, (v >> 56u64) as u8];
    assert(r@ =~= le_bytes(v));
    r
}

/// Total length of the first `k` arguments.
pub open spec fn bytes_before(args: Seq<Seq<u8>>, k: int) -> int
    decreases k,
{
    if k <= 0 {
        0
    } else {
        bytes_before(args, k - 1) + args[k - 1].len()
    }
}

/// Where argument `k` is copied: the arguments are stacked downward from `top`,
/// the first one highest.
pub open spec fn arg_addr(top: int, args: Seq<Seq<u8>>, k: int) -> int {
    top - bytes_before(args, k + 1)
}

/// The 16-byte boundary at or below `a`.
pub open spec fn align16(a: int) -> int {
    a - a % 16
}

/// Where the start block begins: below the aligned end of the arguments, room
/// for one pair per argument, the count, the seed and the canary.
pub open spec fn block_start(top: int, args: Seq<Seq<u8>>) -> int {
    align16(top - bytes_before(args, args.len() as int)) - 16 * args.len() - 48
}

/// The pairs of the start block from argument `k` on: each argument's length,
/// then its address.
pub open spec fn pair_bytes(top: int, args: Seq<Seq<u8>>, k: int) -> Seq<u8>
    decreases args.len() - k,
{
    if k >= args.len() || k < 0 {
        Seq::empty()
    } else {
        le_bytes(args[k].len() as u64) + le_bytes(arg_addr(top, args, k) as u64) + pair_bytes(top, args, k + 1)
    }
}

/// The start block: canary, seed, argument count, then the pairs.
pub open spec fn start_block(top: int, args: Seq<Seq<u8>>, canary: u64, seed: Seq<u8>) -> Seq<u8> {
    le_bytes(canary) + seed + le_bytes(args.len() as u64) + pair_bytes(top, args, 0)
}

/// The room the stack needs below `top` for `args`, with the worst alignment.
pub open spec fn stack_room(args: Seq<Seq<u8>>) -> int {
    bytes_before(args, args.len() as int) + 16 * args.len() + 48 + 15
}

/// What the kernel writes on a new user stack: each argument at its address,
/// and the start block at the initial stack pointer `rsp`.
pub struct StackPlan {
    pub arg_addrs: Vec<u64>,
    pub rsp: u64,
    pub block: Vec<u8>,
}

pub proof fn lemma_bytes_before_mono(args: Seq<Seq<u8>>, i: int, j: int)
    requires
        0 <= i <= j,
    ensures
        0 <= bytes_before(args, i) <= bytes_before(args, j),
    decreases j - i,
{
    if i < j {
        lemma_bytes_before_mono(args, i, j - 1);
    } else {
        lemma_bytes_before_nonneg(args, i);
    }
}

proof fn lemma_bytes_before_nonneg(args: Seq<Seq<u8>>, k: int)
    ensures
        bytes_before(args, k) >= 0,
    decreases k,
{
    if k > 0 {
        lemma_bytes_before_nonneg(args, k - 1);
    }
}

proof fn lemma_pair_bytes_len(top: int, args: Seq<Seq<u8>>, k: int)
    requires
        0 <= k <= args.len(),
    ensures
        pair_bytes(top, args, k).len() == 16 * (args.len() - k),
    decreases args.len() - k,
{
    if k < args.len() {
        lemma_pair_bytes_len(top, args, k + 1);
    }
}

/// Lays out the initial stack of a user process under `stack_top`: the
/// arguments, copied downward from the top, then the start block. `rand`
/// holds the seed (its first bytes) and the canary (its last eight bytes).
#[verifier::spinoff_prover]
#[verifier::rlimit(40)]
pub fn plan_process_stack(stack_top: u64, args: &Vec<Vec<u8>>, rand: &[u8; 40]) -> (plan: StackPlan)
    requires
        stack_room(args@.map_values(|a: Vec<u8>| a@)) <= stack_top,
    ensures
        ({
            let a = args@.map_values(|a: Vec<u8>| a@);
            &&& plan.arg_addrs@.len() == a.len()
            &&& forall|k: int| 0 <= k < a.len() ==> plan.arg_addrs@[k] == arg_addr(stack_top as int, a, k)
            &&& plan.rsp == block_start(stack_top as int, a)
            &&& plan.block@ == start_block(stack_top as int, a, le64(rand@.subrange(32, 40)), rand@.subrange(0, 32))
        }),
{
    let ghost a = args@.map_values(|a: Vec<u8>| a@);
    let ghost top = stack_top as int;
    let n = args.len();
    proof {
        lemma_bytes_before_mono(a, 0, n as int);
    }
    let mut ptr = stack_top;
    let mut arg_addrs: Vec<u64> = Vec::new();
    let mut i: usize = 0;
    while i < n
        invariant
            n == args@.len(),
            a == args@.map_values(|a: Vec<u8>| a@),
            top == stack_top as int,
            stack_room(a) <= stack_top,
            i <= n,
            ptr as int == top - bytes_before(a, i as int),
            arg_addrs@.len() == i,
            forall|k: int| 0 <= k < i ==> arg_addrs@[k] == arg_addr(top, a, k),
        decreases n - i,
    {
        proof {
            lemma_bytes_before_mono(a, i as int + 1, n as int);
            assert(a[i as int] == args@[i as int]@);
        }
        ptr = ptr - args[i].len() as u64;
        arg_addrs.push(ptr);
        i = i + 1;
    }
    let aligned = ptr & !0xfu64;
    assert(ptr & !0xfu64 == ptr - ptr % 16) by (bit_vector);
    let rsp = aligned - 16 * (n as u64) - 48;

    let canary = word_from(rand, 32);
    let mut block: Vec<u8> = u64_to_le(canary);
    let mut j: usize = 0;
    while j < 32
        invariant
            j <= 32,
            block@ == le_bytes(canary) + rand@.subrange(0, j as int),
        decreases 32 - j,
    {
        block.push(rand[j]);
        j = j + 1;
        assert(block@ =~= le_bytes(canary) + rand@.subrange(0, j as int));
    }
    let mut count = u64_to_le(n as u64);
    block.append(&mut count);
    let ghost head = block@;
    assert(head == le_bytes(canary) + rand@.subrange(0, 32) + le_bytes(n as u64));
    let mut k: usize = 0;
    while k < n
        invariant
            n == args@.len(),
            n == a.len(),
            a == args@.map_values(|a: Vec<u8>| a@),
            top == stack_top as int,
            k <= n,
            arg_addrs@.len() == n,
            forall|q: int| 0 <= q < n ==> arg_addrs@[q] == arg_addr(top, a, q),
            block@ + pair_bytes(top, a, k as int) == head + pair_bytes(top, a, 0),
        decreases n - k,
    {
        let mut len_bytes = u64_to_le(args[k].len() as u64);
        let mut addr_bytes = u64_to_le(arg_addrs[k]);
        proof {
            assert(a[k as int] == args@[k as int]@);
            assert(arg_addrs@[k as int] == arg_addr(top, a, k as int));
        }
        let ghost before = block@;
        block.append(&mut len_bytes);
        block.append(&mut addr_bytes);
        proof {
            assert(pair_bytes(top, a, k as int) == le_bytes(a[k as int].len() as u64) + le_bytes(
                arg_addr(top, a, k as int) as u64,
            ) + pair_bytes(top, a, k as int + 1));
            assert(block@ =~= before + le_bytes(a[k as int].len() as u64) + le_bytes(
                arg_addr(top, a, k as int) as u64,
            ));
            assert(block@ + pair_bytes(top, a, k as int + 1) =~= before + pair_bytes(top, a, k as int));
        }
        k = k + 1;
    }
    assert(pair_bytes(top, a, n as int) =~= Seq::<u8>::empty());
    assert(block@ =~= head + pair_bytes(top, a, 0));
    StackPlan { arg_addrs, rsp, block }
}

/// The word stored in the eight bytes of `b` from `off`.
pub open spec fn word_at(b: Seq<u8>, off: int) -> u64 {
    le64(b.subrange(off, off + 8))
}

proof fn lemma_pair_bytes_at(top: int, args: Seq<Seq<u8>>, k: int, q: int)
    requires
        0 <= k <= q < args.len(),
    ensures
        pair_bytes(top, args, k).len() == 16 * (args.len() - k),
        pair_bytes(top, args, k).subrange(16 * (q - k), 16 * (q - k) + 8) == le_bytes(args[q].len() as u64),
        pair_bytes(top, args, k).subrange(16 * (q - k) + 8, 16 * (q - k) + 16) == le_bytes(
            arg_addr(top, args, q) as u64,
        ),
    decreases q - k,
{
    lemma_pair_bytes_len(top, args, k);
    lemma_pair_bytes_len(top, args, k + 1);
    let p = pair_bytes(top, args, k);
    let l = le_bytes(args[k].len() as u64);
    let d = le_bytes(arg_addr(top, args, k) as u64);
    let rest = pair_bytes(top, args, k + 1);
    assert(p == l + d + rest);
    if q == k {
        assert(p.subrange(0, 8) =~= l);
        assert(p.subrange(8, 16) =~= d);
    } else {
        lemma_pair_bytes_at(top, args, k + 1, q);
        let o = 16 * (q - k);
        assert(p.subrange(o, o + 8) =~= rest.subrange(o - 16, o - 8));
        assert(p.subrange(o + 8, o + 16) =~= rest.subrange(o - 8, o));
    }
}

/// What the runtime reads from the start block is what the kernel put there:
/// the canary at the stack pointer, the seed behind it, then the argument
/// count and, for each argument, its length and the address of its bytes.
pub proof fn lemma_start_block_read_back(top: int, args: Seq<Seq<u8>>, canary: u64, seed: Seq<u8>)
    requires
        seed.len() == RNG_SEED_SIZE,
    ensures
        ({
            let b = start_block(top, args, canary, seed);
            &&& b.len() == 48 + 16 * args.len()
            &&& word_at(b, 0) == canary
            &&& b.subrange(8, 40) == seed
            &&& word_at(b, 40) == args.len() as u64
            &&& forall|k: int| 0 <= k < args.len() ==> #[trigger] word_at(b, 48 + 16 * k) == args[k].len() as u64
                && word_at(b, 56 + 16 * k) == arg_addr(top, args, k) as u64
        }),
{
    let b = start_block(top, args, canary, seed);
    let c = le_bytes(canary);
    let nb = le_bytes(args.len() as u64);
    let pairs = pair_bytes(top, args, 0);
    lemma_pair_bytes_len(top, args, 0);
    assert(b == c + seed + nb + pairs);
    lemma_le_bytes_round_trip(canary);
    lemma_le_bytes_round_trip(args.len() as u64);
    assert(b.subrange(0, 8) =~= c);
    assert(b.subrange(8, 40) =~= seed);
    assert(b.subrange(40, 48) =~= nb);
    assert forall|k: int| 0 <= k < args.len() implies #[trigger] word_at(b, 48 + 16 * k) == args[k].len() as u64
        && word_at(b, 56 + 16 * k) == arg_addr(top, args, k) as u64 by {
        lemma_pair_bytes_at(top, args, 0, k);
        lemma_le_bytes_round_trip(args[k].len() as u64);
        lemma_le_bytes_round_trip(arg_addr(top, args, k) as u64);
        assert(b.subrange(48 + 16 * k, 56 + 16 * k) =~= pairs.subrange(16 * k, 16 * k + 8));
        assert(b.subrange(56 + 16 * k, 64 + 16 * k) =~= pairs.subrange(16 * k + 8, 16 * k + 16));
    }
}

/// The initial stack pointer is 16-byte aligned, the start block lies below
/// the arguments, and the arguments lie side by side under the top, each in
/// its own bytes.
pub proof fn lemma_stack_layout(top: int, args: Seq<Seq<u8>>)
    requires
        stack_room(args) <= top,
    ensures
        block_start(top, args) % 16 == 0,
        block_start(top, args) >= 0,
        block_start(top, args) + 48 + 16 * args.len() <= top - bytes_before(args, args.len() as int),
        forall|k: int| 0 <= k < args.len() ==> #[trigger] arg_addr(top, args, k) + args[k].len() == (if k == 0 {
            top
        } else {
            arg_addr(top, args, k - 1)
        }),
        forall|k: int| 0 <= k < args.len() ==> top - bytes_before(args, args.len() as int) <= #[trigger] arg_addr(
            top,
            args,
            k,
        ),
{
    let n = args.len() as int;
    let end = top - bytes_before(args, n);
    assert(align16(end) % 16 == 0 && align16(end) <= end && align16(end) > end - 16) by {
        assert(end % 16 >= 0 && end % 16 < 16);
        assert((end - end % 16) % 16 == 0) by (nonlinear_arith);
    }
    assert((align16(end) - 16 * n - 48) % 16 == 0) by (nonlinear_arith)
        requires align16(end) % 16 == 0;
    assert forall|k: int| 0 <= k < n implies top - bytes_before(args, n) <= #[trigger] arg_addr(top, args, k) by {
        lemma_bytes_before_mono(args, k + 1, n);
    }
}

/// The number in the eight bytes of `b` from `at`, least significant first.
pub fn word_from(b: &[u8], at: usize) -> (r: u64)
    requires
        at + 8 <= b@.len(),
    ensures
        r == word_at(b@, at as int),
{
    let ghost s = b@.subrange(at as int, at + 8);
    assert(s[0] == b@[at as int] && s[1] == b@[at + 1] && s[2] == b@[at + 2] && s[3] == b@[at + 3]);
    assert(s[4] == b@[at + 4] && s[5] == b@[at + 5] && s[6] == b@[at + 6] && s[7] == b@[at + 7]);
    (b[at] as u64) | ((b[at + 1] as u64) << 8u64) | ((b[at + 2] as u64) << 16u64) | ((b[at + 3] as u64) << 24u64)
        | ((b[at + 4] as u64) << 32u64) | ((b[at + 5] as u64) << 40u64) | ((b[at + 6] as u64) << 48u64) | ((b[at
        + 7] as u64) << 56u64)
}

/// The registers a user process starts with: its entry point and stack, the
/// user code and data selectors at privilege level 3, interrupts enabled.
pub open spec fn user_entry_regs(r: Registers, entrypoint: u64, rsp: u64, code_selector: u16, data_selector: u16) -> bool {
    &&& r.rip == entrypoint
    &&& r.rsp == rsp
    &&& r.cs == (code_selector as u64 | 3u64)
    &&& r.ss == (data_selector as u64 | 3u64)
    &&& r.rflags == USER_RFLAGS
    &&& r.rax == 0 && r.rbx == 0 && r.rcx == 0 && r.rdx == 0 && r.rsi == 0 && r.rdi == 0 && r.rbp == 0
    &&& r.r8 == 0 && r.r9 == 0 && r.r10 == 0 && r.r11 == 0 && r.r12 == 0 && r.r13 == 0 && r.r14 == 0
    &&& r.r15 == 0
}

impl Process {
    /// Makes the process ready to enter user mode at `entrypoint` with the
    /// stack pointer `rsp` (from `plan_process_stack`).
    pub fn init_process(&mut self, entrypoint: u64, rsp: u64, code_selector: u16, data_selector: u16)
        ensures
            user_entry_regs(final(self).saved_regs, entrypoint, rsp, code_selector, data_selector),
            final(self).state == SchedulerState::Ready(ReadyMode::User),
            final(self).pid == old(self).pid,
            final(self).parent == old(self).parent,
            final(self).children == old(self).children,
            final(self).fd_list == old(self).fd_list,
            final(self).free_fd_nb == old(self).free_fd_nb,
            final(self).cwd_path == old(self).cwd_path,
            final(self).page_table_phys == old(self).page_table_phys,
            final(self).kernel_stack_top == old(self).kernel_stack_top,
            final(self).heap_start == old(self).heap_start,
            final(self).heap_break == old(self).heap_break,
            final(self).heap_max == old(self).heap_max,
            final(self).process_kind == old(self).process_kind,
            final(self).fxstate == old(self).fxstate,
            final(self).kernel_context == old(self).kernel_context,
    {
        let mut regs = Registers::new();
        regs.rip = entrypoint;
        regs.rsp = rsp;
        regs.cs = code_selector as u64 | 3u64;
        regs.ss = data_selector as u64 | 3u64;
        regs.rflags = USER_RFLAGS;
        self.saved_regs = regs;
        self.state = SchedulerState::Ready(ReadyMode::User);
    }
}

} // verus!
