//! The user-space runtime: whole-file reads, program arguments, power
//! requests, the random seed, and the buffered standard output of user programs.
//!
//! The system calls themselves are made by the caller; these functions decide
//! what to ask for and what the answers mean.

use vstd::prelude::*;
use crate::abi::{Fd, Stat, StatMode, CREATE_FILE, RNG_SEED_SIZE, SHUTDOWN_FAILURE, SHUTDOWN_REBOOT, SHUTDOWN_SUCCESS};
use crate::chacha::{le64, u64_from_le};
use crate::syscall::{request_of, ShutdownRequest};
use crate::user_stack::{word_at, word_from};

verus! {

/// Why a whole-file read failed.
#[derive(Clone, Copy, Debug, PartialEq, Eq, Structural)]
pub enum FileError {
    FileExpected,
    FdNotFound,
    ReadError,
}

/// The error of a write to a file.
#[derive(Clone, Copy, Debug, PartialEq, Eq, Structural)]
pub struct IoError;

/// An open file of a user program.
pub struct File(Fd);

impl File {
    pub closed spec fn spec_fd(&self) -> Fd {
        self.0
    }

    /// The file that the descriptor `fd`, returned by an open call, names.
    pub fn from_fd(fd: Fd) -> (f: File)
        ensures
            f.spec_fd() == fd,
    {
        File(fd)
    }

    pub fn get_fd(&self) -> (fd: Fd)
        ensures
            fd == self.spec_fd(),
    {
        self.0
    }

    /// The mode that `create` hands to the open call: `mode` with the creation bit set.
    pub fn create_mode(mode: u64) -> (r: u64)
        ensures
            r == mode | CREATE_FILE,
    {
        mode | CREATE_FILE
    }
}

/// The size that a whole-file read asks for, from what `fstat` answered.
pub open spec fn size_to_read(stat: Option<Stat>) -> Result<usize, FileError> {
    match stat {
        None => Err(FileError::FdNotFound),
        Some(s) => match s.mode {
            StatMode::File { size } => Ok(size),
            _ => Err(FileError::FileExpected),
        },
    }
}

/// First step of reading a whole file: the size to read, or the error, given
/// what the `fstat` call answered.
pub fn read_entire_file_size(stat: Option<Stat>) -> (r: Result<usize, FileError>)
    ensures
        r == size_to_read(stat),
{
    match stat {
        None => Err(FileError::FdNotFound),
        Some(s) => match s.mode {
            StatMode::File { size } => Ok(size),
            _ => Err(FileError::FileExpected),
        },
    }
}

/// The buffer handed to the read call: room for `size` bytes is reserved, but
/// it holds no byte, so the read call is handed an empty buffer.
pub fn read_buffer(size: usize) -> (v: Vec<u8>)
    ensures
        v@.len() == 0,
{
    Vec::with_capacity(size)
}

/// Last step of reading a whole file of `size` bytes: `read` is what the read
/// call answered and `buf` the buffer it filled. The read succeeds when the
/// call read exactly `size` bytes.
pub fn read_entire_file(size: usize, read: Option<usize>, buf: Vec<u8>) -> (r: Result<Vec<u8>, FileError>)
    ensures
        read is None ==> r == Err::<Vec<u8>, FileError>(FileError::ReadError),
        (read matches Some(n) && n != size) ==> r == Err::<Vec<u8>, FileError>(FileError::ReadError),
        read == Some(size) ==> (r matches Ok(v) && v@ == buf@),
{
    match read {
        None => Err(FileError::ReadError),
        Some(n) => {
            if n != size {
                Err(FileError::ReadError)
            } else {
                Ok(buf)
            }
        },
    }
}

/// The arguments a user program was started with.
pub struct Args {
    args: Vec<String>,
}

impl View for Args {
    type V = Seq<Seq<char>>;

    closed spec fn view(&self) -> Seq<Seq<char>> {
        Seq::new(self.args@.len(), |i: int| self.args@[i]@)
    }
}

impl Args {
    pub fn new(args: Vec<String>) -> (a: Args)
        ensures
            a@.len() == args@.len(),
            forall|i: int| 0 <= i < args@.len() ==> #[trigger] a@[i] == args@[i]@,
    {
        Args { args }
    }

    pub fn len(&self) -> (n: usize)
        ensures
            n == self@.len(),
    {
        self.args.len()
    }

    /// The argument at `idx`, if there is one.
    pub fn get(&self, idx: usize) -> (r: Option<&str>)
        ensures
            idx < self@.len() ==> (r matches Some(s) && s@ == self@[idx as int]),
            idx >= self@.len() ==> r is None,
    {
        if idx < self.args.len() {
            Some(self.args[idx].as_str())
        } else {
            None
        }
    }

    /// All the arguments, in order.
    pub fn iter(&self) -> (r: Vec<&str>)
        ensures
            r@.len() == self@.len(),
            forall|i: int| 0 <= i < r@.len() ==> #[trigger] r@[i]@ == self@[i],
    {
        let mut r: Vec<&str> = Vec::new();
        let mut i: usize = 0;
        while i < self.args.len()
            invariant
                i <= self.args@.len(),
                r@.len() == i,
                forall|j: int| 0 <= j < i ==> #[trigger] r@[j]@ == self@[j],
            decreases self.args@.len() - i,
        {
            r.push(self.args[i].as_str());
            i = i + 1;
        }
        r
    }
}

/// How a user program asks the machine to power off.
#[derive(Clone, Copy, Debug, PartialEq, Eq, Structural)]
pub enum ShutdownResult {
    Failure,
    Success,
}

/// The flags of the shutdown call for a power-off with the result `res`.
pub open spec fn flags_of(res: ShutdownResult) -> u64 {
    match res {
        ShutdownResult::Success => SHUTDOWN_SUCCESS,
        ShutdownResult::Failure => SHUTDOWN_FAILURE,
    }
}

/// The flags that `shutdown` hands to the shutdown call.
pub fn shutdown_flags(res: ShutdownResult) -> (flags: u64)
    ensures
        flags == flags_of(res),
{
    match res {
        ShutdownResult::Success => SHUTDOWN_SUCCESS,
        ShutdownResult::Failure => SHUTDOWN_FAILURE,
    }
}

/// The flags that `reboot` hands to the shutdown call.
pub fn reboot_flags() -> (flags: u64)
    ensures
        flags == SHUTDOWN_REBOOT,
{
    SHUTDOWN_REBOOT
}

/// The kernel reads back what the runtime asks for: a power-off reports the
/// runtime's result, and the reboot flags ask for a reboot.
pub proof fn lemma_shutdown_flags_decoded(res: ShutdownResult)
    ensures
        request_of(flags_of(res)) == (ShutdownRequest::PowerOff { success: res == ShutdownResult::Success }),
        request_of(SHUTDOWN_REBOOT) == ShutdownRequest::Reboot,
{
    assert((1u64 & 2u64) == 0u64 && (0u64 & 2u64) == 0u64 && (1u64 & 1u64) != 0u64 && (0u64 & 1u64) == 0u64
        && (2u64 & 2u64) != 0u64) by (bit_vector);
}

/// The random seed a program keeps: the first bytes of what the kernel put on
/// its stack. Fewer bytes than a seed is an input the runtime panics on.
pub fn init_rng_seed(rng_bytes: &[u8]) -> (seed: [u8; 32])
    requires
        rng_bytes@.len() >= RNG_SEED_SIZE,
    ensures
        seed@ == rng_bytes@.subrange(0, 32),
{
    let mut seed = [0u8; 32];
    let mut i: usize = 0;
    while i < 32
        invariant
            i <= 32,
            rng_bytes@.len() >= 32,
            seed@.len() == 32,
            forall|j: int| 0 <= j < i ==> seed@[j] == rng_bytes@[j],
        decreases 32 - i,
    {
        seed[i] = rng_bytes[i];
        i = i + 1;
    }
    assert(seed@ =~= rng_bytes@.subrange(0, 32));
    seed
}

/// The random number made of the eight bytes the kernel filled, in the
/// machine's byte order (least significant first).
pub fn kernel_random_u64(buf: [u8; 8]) -> (r: u64)
    ensures
        r == le64(buf@),
{
    u64_from_le(&buf)
}

/// What a program finds on its stack at start: the stack canary, the random
/// seed, and each argument's length and address.
pub struct StartInfo {
    pub canary: u64,
    pub seed: Vec<u8>,
    pub args: Vec<(u64, u64)>,
}

/// Reads the start block that the kernel put at the initial stack pointer:
/// the canary, then the seed, the argument count and one (length, address)
/// pair per argument. A block too short for what its count announces is refused.
pub fn read_start_block(block: &[u8]) -> (r: Option<StartInfo>)
    ensures
        r is Some <==> (block@.len() >= 48 && 48 + 16 * word_at(block@, 40) <= block@.len()),
        r matches Some(info) ==> {
            &&& info.canary == word_at(block@, 0)
            &&& info.seed@ == block@.subrange(8, 40)
            &&& info.args@.len() == word_at(block@, 40)
            &&& forall|k: int|
                0 <= k < info.args@.len() ==> #[trigger] info.args@[k] == (
                    word_at(block@, 48 + 16 * k),
                    word_at(block@, 56 + 16 * k),
                )
        },
{
    if block.len() < 48 {
        return None;
    }
    let argc = word_from(block, 40);
    let room = ((block.len() - 48) / 16) as u64;
    if argc > room {
        return None;
    }
    assert(48 + 16 * argc <= block@.len()) by (nonlinear_arith)
        requires argc <= (block@.len() - 48) / 16, block@.len() >= 48;
    let canary = word_from(block, 0);
    let mut seed: Vec<u8> = Vec::new();
    let mut i: usize = 8;
    while i < 40
        invariant
            8 <= i <= 40,
            block@.len() >= 48,
            seed@ == block@.subrange(8, i as int),
        decreases 40 - i,
    {
        seed.push(block[i]);
        i = i + 1;
        assert(seed@ =~= block@.subrange(8, i as int));
    }
    let mut args: Vec<(u64, u64)> = Vec::new();
    let mut k: usize = 0;
    let n = argc as usize;
    while k < n
        invariant
            n == argc,
            48 + 16 * argc <= block@.len(),
            block@.len() == block.len(),
            k <= n,
            args@.len() == k,
            forall|q: int| 0 <= q < k ==> #[trigger] args@[q] == (word_at(block@, 48 + 16 * q), word_at(block@, 56 + 16 * q)),
        decreases n - k,
    {
        let at = 48 + 16 * k;
        let len = word_from(block, at);
        let addr = word_from(block, at + 8);
        args.push((len, addr));
        k = k + 1;
    }
    Some(StartInfo { canary, seed, args })
}

/// Size of the buffer of standard output.
pub const STDIO_BUF_SIZE: usize = 4096usize;

/// Standard output of a user program: bytes are kept until a line ends, the
/// buffer would overflow, or a flush is asked for.
pub struct StdoutBuffer {
    buf: Vec<u8>,
    pos: usize,
}

/// What to do with the bytes of one write to standard output.
#[derive(Clone, Copy, Debug, PartialEq, Eq, Structural)]
pub enum WritePlan {
    /// The bytes do not fit in the buffer at all: flush it, then write them directly.
    Direct,
    /// The bytes do not fit behind what is kept: flush first, then keep them.
    FlushThenAppend,
    /// Keep the bytes behind what is kept.
    Append,
}

impl View for StdoutBuffer {
    type V = Seq<u8>;

    /// The bytes kept and not yet written.
    closed spec fn view(&self) -> Seq<u8> {
        self.buf@.subrange(0, self.pos as int)
    }
}

impl StdoutBuffer {
    pub closed spec fn wf(&self) -> bool {
        &&& self.buf@.len() == STDIO_BUF_SIZE
        &&& self.pos <= STDIO_BUF_SIZE
    }

    pub fn new() -> (s: StdoutBuffer)
        ensures
            s.wf(),
            s@ == Seq::<u8>::empty(),
    {
        let buf = vec![0u8; 4096];
        let s = StdoutBuffer { buf, pos: 0 };
        assert(s@ =~= Seq::<u8>::empty());
        s
    }

    /// At most a buffer's worth of bytes is kept.
    pub proof fn lemma_kept_bound(&self)
        requires
            self.wf(),
        ensures
            self@.len() <= STDIO_BUF_SIZE,
    {
    }

    /// The bytes a flush writes; an empty result means a flush writes nothing.
    pub fn pending(&self) -> (r: Vec<u8>)
        requires
            self.wf(),
        ensures
            r@ == self@,
    {
        let mut r: Vec<u8> = Vec::new();
        let mut i: usize = 0;
        while i < self.pos
            invariant
                self.wf(),
                i <= self.pos,
                r@ == self.buf@.subrange(0, i as int),
            decreases self.pos - i,
        {
            r.push(self.buf[i]);
            i = i + 1;
            assert(r@ =~= self.buf@.subrange(0, i as int));
        }
        r
    }

    /// Forgets the kept bytes, once the write of a flush has succeeded.
    pub fn flushed(&mut self)
        requires
            old(self).wf(),
        ensures
            final(self).wf(),
            final(self)@ == Seq::<u8>::empty(),
    {
        self.pos = 0;
        assert(self@ =~= Seq::<u8>::empty());
    }

    /// How a write of `len` bytes is handled.
    pub fn write_plan(&self, len: usize) -> (p: WritePlan)
        requires
            self.wf(),
        ensures
            len >= STDIO_BUF_SIZE ==> p == WritePlan::Direct,
            len < STDIO_BUF_SIZE && self@.len() + len > STDIO_BUF_SIZE ==> p == WritePlan::FlushThenAppend,
            len < STDIO_BUF_SIZE && self@.len() + len <= STDIO_BUF_SIZE ==> p == WritePlan::Append,
    {
        if len >= STDIO_BUF_SIZE {
            WritePlan::Direct
        } else if self.pos + len > STDIO_BUF_SIZE {
            WritePlan::FlushThenAppend
        } else {
            WritePlan::Append
        }
    }

    /// Keeps `bytes` behind what is kept; the result says whether a line
    /// ended in them, which asks for a flush.
    pub fn append(&mut self, bytes: &[u8]) -> (flush_now: bool)
        requires
            old(self).wf(),
            old(self)@.len() + bytes@.len() <= STDIO_BUF_SIZE,
        ensures
            final(self).wf(),
            final(self)@ == old(self)@ + bytes@,
            flush_now == bytes@.contains(10u8),
    {
        let start = self.pos;
        let mut i: usize = 0;
        let mut newline = false;
        while i < bytes.len()
            invariant
                self.buf@.len() == STDIO_BUF_SIZE,
                start + bytes@.len() <= STDIO_BUF_SIZE,
                i <= bytes@.len(),
                self.pos == start,
                self.buf@.subrange(0, start as int) == old(self).buf@.subrange(0, start as int),
                forall|j: int| 0 <= j < i ==> self.buf@[start + j] == bytes@[j],
                newline == (exists|j: int| 0 <= j < i && bytes@[j] == 10u8),
            decreases bytes@.len() - i,
        {
            let b = bytes[i];
            let ghost before = self.buf@;
            self.buf.set(start + i, b);
            assert(self.buf@.subrange(0, start as int) =~= before.subrange(0, start as int));
            if b == 10u8 {
                newline = true;
            }
            i = i + 1;
        }
        self.pos = start + bytes.len();
        assert(self@ =~= old(self)@ + bytes@) by {
            assert(old(self)@ =~= old(self).buf@.subrange(0, start as int));
            assert forall|k: int| 0 <= k < self.pos implies self@[k] == (old(self)@ + bytes@)[k] by {
                if k < start {
                    assert(self.buf@.subrange(0, start as int)[k] == self.buf@[k]);
                } else {
                    assert(self.buf@[start + (k - start)] == bytes@[k - start]);
                }
            }
        }
        assert(newline == bytes@.contains(10u8)) by {
            if newline {
                let j = choose|j: int| 0 <= j < bytes@.len() && bytes@[j] == 10u8;
                assert(bytes@[j] == 10u8);
            }
        }
        newline
    }
}

/// Size of the static heap of a user program.
pub const RT_HEAP_SIZE: usize = 0x1_0000usize;

/// The bump allocator of a user program: blocks are carved one after the
/// other from a static heap and never given back.
pub struct BumpHeap {
    count: usize,
}

impl BumpHeap {
    /// How many bytes of the heap are used.
    pub closed spec fn used(&self) -> int {
        self.count as int
    }

    pub fn new() -> (h: BumpHeap)
        ensures
            h.used() == 0,
    {
        BumpHeap { count: 0 }
    }

    /// Allocates `size` bytes aligned to `align` from the heap that starts at
    /// `heap_base`. The address handed out is the end of the new block, as
    /// the runtime's allocator hands it out; none when the block does not fit.
    pub fn allocate(&mut self, heap_base: usize, size: usize, align: usize) -> (r: Option<usize>)
        requires
            old(self).used() <= RT_HEAP_SIZE,
            align > 0,
            heap_base + RT_HEAP_SIZE + align <= usize::MAX,
        ensures
            final(self).used() <= RT_HEAP_SIZE,
            ({
                let next = heap_base + old(self).used();
                let start = crate::align::round_up(next, align as int);
                if start + size > heap_base + RT_HEAP_SIZE {
                    r is None && final(self).used() == old(self).used()
                } else {
                    r == Some((start + size) as usize) && final(self).used() == start + size - heap_base
                }
            }),
    {
        let next = heap_base + self.count;
        let rem = next % align;
        let start = if rem == 0 {
            next
        } else {
            next + (align - rem)
        };
        let end = match start.checked_add(size) {
            Some(e) => e,
            None => return None,
        };
        if end > heap_base + RT_HEAP_SIZE {
            return None;
        }
        self.count = end - heap_base;
        Some(end)
    }
}

} // verus!
