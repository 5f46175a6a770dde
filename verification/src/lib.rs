//! Verified core of a small x86-64 hobby kernel, its bootloader and its user runtime.

pub mod abi;
pub mod align;
pub mod frame_alloc;
pub mod tar;
pub mod path;
pub mod names;
pub mod vfs;
pub mod ringbuf;
pub mod vga;
pub mod device;
pub mod rootfs;
pub mod process;
pub mod fileops;
pub mod scheduler;
pub mod chacha;
pub mod keyboard;
pub mod elf_loader;
pub mod apic;
pub mod ahci;
pub mod pcie;
pub mod rtc;
pub mod symbols;
pub mod backtrace;
pub mod interrupts;
pub mod paging;
pub mod syscall;
pub mod rt;
pub mod user_stack;
pub mod printer;
pub mod boot;
pub mod spawn;
