//! Verified core of a small RISC-V Sv32 supervisor-mode kernel: addresses, physical memory,
//! the page-frame allocator, Sv32 page tables, the process table and scheduler, and SBI calls.

pub mod addr;
pub mod kernel;
pub mod mem;
pub mod process;
pub mod sbi;
