//! Values shared between the kernel and user programs: system call numbers,
//! file descriptors, file status and directory entries.

use vstd::prelude::*;

verus! {

pub const SYSCALL_EXIT: u64 = 0;
pub const SYSCALL_EXEC: u64 = 1;
pub const SYSCALL_GET_CHAR: u64 = 2;
pub const SYSCALL_WAIT_PID: u64 = 3;
pub const SYSCALL_STAT: u64 = 4;
pub const SYSCALL_OPEN: u64 = 5;
pub const SYSCALL_CLOSE: u64 = 6;
pub const SYSCALL_GET_CWD: u64 = 7;
pub const SYSCALL_GET_DIR_CHILDREN: u64 = 8;
pub const SYSCALL_SBRK: u64 = 9;
pub const SYSCALL_SHUTDOWN: u64 = 10;
pub const SYSCALL_CHANGE_CWD: u64 = 11;
pub const SYSCALL_FSTAT: u64 = 12;
pub const SYSCALL_READ: u64 = 13;
pub const SYSCALL_WRITE: u64 = 14;
pub const SYSCALL_GET_RANDOM: u64 = 15;

pub const BACKSPACE_BYTE: u8 = 8u8;

pub const READABLE: u64 = 1u64;
pub const WRITABLE: u64 = 2u64;
pub const CREATE_FILE: u64 = 4u64;

pub const DIRENT_FILE: u8 = 1u8;
pub const DIRENT_DIR: u8 = 2u8;
pub const DIRENT_DEVICE: u8 = 3u8;

pub const PATH_MAX: usize = 4096usize;
pub const PATH_NAME_MAX: usize = 255usize;

pub const USER_HEAP_START: usize = 0x4000_0000usize;
pub const USER_HEAP_SIZE: usize = 0x4000_0000usize;

pub const SHUTDOWN_SUCCESS: u64 = 1u64;
pub const SHUTDOWN_FAILURE: u64 = 0u64;
pub const SHUTDOWN_REBOOT: u64 = 2u64;

pub const RNG_SEED_SIZE: usize = 32usize;

/// What kind of object a path names, and the size of a regular file.
#[derive(Clone, Copy, PartialEq, Eq, Debug)]
pub enum StatMode {
    File { size: usize },
    Directory,
    Device,
}

/// File status as returned by `stat` and `fstat`.
#[derive(Clone, Copy, PartialEq, Eq, Debug)]
pub struct Stat {
    pub mode: StatMode,
}

/// A file descriptor: a slot index in the process's descriptor table and the
/// generation of that slot when the descriptor was handed out.
#[derive(Clone, Copy, Debug)]
pub struct Fd {
    generation: u32,
    idx: u32,
}

impl Fd {
    pub closed spec fn spec_idx(self) -> u32 {
        self.idx
    }

    pub closed spec fn spec_gen(self) -> u32 {
        self.generation
    }

    /// The 64-bit word that carries this descriptor across the system call boundary.
    pub open spec fn raw_of(self) -> int {
        self.spec_gen() * 0x1_0000_0000int + self.spec_idx()
    }

    pub fn new(idx: u32, generation: u32) -> (fd: Fd)
        ensures
            fd.spec_idx() == idx,
            fd.spec_gen() == generation,
    {
        Fd { generation, idx }
    }

    pub fn get_idx(&self) -> (r: u32)
        ensures
            r == self.spec_idx(),
    {
        self.idx
    }

    pub fn get_gen(&self) -> (r: u32)
        ensures
            r == self.spec_gen(),
    {
        self.generation
    }

    /// Splits a raw word: the high half is the generation, the low half the index.
    pub fn from_raw(raw: u64) -> (fd: Fd)
        ensures
            fd.spec_gen() == raw as int / 0x1_0000_0000int,
            fd.spec_idx() == raw as int % 0x1_0000_0000int,
    {
        let generation = (raw >> 32u64) as u32;
        let idx = raw as u32;
        assert((raw >> 32u64) as u32 == raw / 0x1_0000_0000u64) by (bit_vector);
        assert(raw as u32 == raw % 0x1_0000_0000u64) by (bit_vector);
        assert(raw / 0x1_0000_0000u64 == raw as int / 0x1_0000_0000int);
        Fd { generation, idx }
    }

    /// Packs the descriptor into one word: generation in the high half, index in the low half.
    pub fn into_raw(self) -> (raw: u64)
        ensures
            raw == self.raw_of(),
    {
        let g = self.generation;
        let i = self.idx;
        assert((((g as u64) << 32u64) | (i as u64)) == (g as u64) * 0x1_0000_0000u64 + (i as u64))
            by (bit_vector);
        assert((g as u64) * 0x1_0000_0000u64 + (i as u64) == g * 0x1_0000_0000int + i) by (nonlinear_arith)
            requires g < 0x1_0000_0000int, i < 0x1_0000_0000int;
        ((g as u64) << 32u64) | (i as u64)
    }
}

/// Packing a descriptor and splitting the word again gives back the same descriptor.
pub proof fn lemma_fd_raw_round_trip(fd: Fd)
    ensures
        0 <= fd.raw_of() <= u64::MAX,
        fd.raw_of() / 0x1_0000_0000int == fd.spec_gen(),
        fd.raw_of() % 0x1_0000_0000int == fd.spec_idx(),
{
    let g = fd.spec_gen() as int;
    let i = fd.spec_idx() as int;
    assert((g * 0x1_0000_0000int + i) / 0x1_0000_0000int == g) by (nonlinear_arith)
        requires 0 <= i < 0x1_0000_0000int;
    assert((g * 0x1_0000_0000int + i) % 0x1_0000_0000int == i) by (nonlinear_arith)
        requires 0 <= i < 0x1_0000_0000int;
    assert(g * 0x1_0000_0000int + i <= u64::MAX) by (nonlinear_arith)
        requires 0 <= i < 0x1_0000_0000int, 0 <= g < 0x1_0000_0000int;
}

/// Splitting a raw word and packing the parts again gives back the same word.
pub proof fn lemma_raw_fd_round_trip(raw: u64)
    ensures
        (raw as int / 0x1_0000_0000int) * 0x1_0000_0000int + raw as int % 0x1_0000_0000int == raw,
{
}

/// One directory entry as copied out to user space.
#[derive(Clone, Copy)]
pub struct DirChild {
    pub kind: u8,
    pub name_len: u8,
    pub name: [u8; 255],
}

impl DirChild {
    pub fn zeroed() -> (d: DirChild)
        ensures
            d.kind == 0,
            d.name_len == 0,
            forall|i: int| 0 <= i < 255 ==> d.name@[i] == 0,
    {
        DirChild { kind: 0, name_len: 0, name: [0u8; 255] }
    }
}

/// One program argument passed to a new process: its length and the user address of its bytes.
#[derive(Clone, Copy)]
pub struct Arg {
    pub len: usize,
    pub ptr: usize,
}

/// The descriptor every process starts with for standard output.
pub fn stdout_fd() -> (fd: Fd)
    ensures
        fd.spec_idx() == 0 && fd.spec_gen() == 1,
{
    Fd::new(0, 1)
}

/// The descriptor every process starts with for standard error.
pub fn stderr_fd() -> (fd: Fd)
    ensures
        fd.spec_idx() == 1 && fd.spec_gen() == 1,
{
    Fd::new(1, 1)
}

/// The descriptor every process starts with for standard input.
pub fn stdin_fd() -> (fd: Fd)
    ensures
        fd.spec_idx() == 2 && fd.spec_gen() == 1,
{
    Fd::new(2, 1)
}

} // verus!
