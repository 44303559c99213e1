# Verified core of a small RISC-V (Sv32) supervisor-mode kernel

`src/` is the verified library:

- `addr`, `mem::addr`: physical/virtual addresses and power-of-two alignment.
- `mem`: byte-buffer fill, copy and overlapping move; `mem::phys` models physical memory as
  32-bit words; `mem::frame_alloc` is the bump allocator of zeroed page frames;
  `mem::paging::sv32` splits addresses, encodes entries and maps pages in a two-level table.
- `process`: the process table, process creation with its initial saved context, and the
  round-robin scheduler, whose decisions come back as `Switch` actions.
- `sbi`: the SBI calls the kernel makes and how their replies are read.
- `kernel`: when the demonstration processes stop the machine.

`app/` boots the kernel on a hosted model of the machine: SBI console output goes to standard
output, and each process runs on a host thread that proceeds only while it is scheduled.
