# kernel

The verified core of a small x86-64 hobby operating system: its kernel, its
bootloader and the runtime of its user programs. Everything in `src/` is
checked by Verus; the contracts state what each function computes.

- `src/` — the library. Boot: `boot` (kernel image and mappings), `printer`
  (framebuffer text), `frame_alloc`, `align`. Kernel: `tar`, `rootfs`, `path`,
  `names`, `vfs`, `device`, `vga`, `ringbuf`, `keyboard`, `process`,
  `fileops`, `scheduler`, `spawn`, `syscall`, `user_stack`, `elf_loader`, `chacha`,
  `paging`, `interrupts`, `apic`, `ahci`, `pcie`, `rtc`, `symbols`,
  `backtrace`, `abi`. User runtime: `rt`.
- `app/` — a host program around the library: it reads a boot archive, builds
  the file system, loads `/init` into a simulated memory and prints the console.
- `tests/` — tests of the library on concrete values.

Outside crates called from the library, behind contracts stated in the code:
`x86_64` (address alignment), `elf` and `xmas-elf` (ELF parsing), `font8x8`
(glyphs), `arrayvec` (PCI base address registers) and `pc-keyboard`
(scancode decoding).
