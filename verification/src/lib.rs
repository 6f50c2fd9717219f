//! Core of a small exokernel for a 32-bit MIPS machine: physical frames,
//! two-level page tables, environments, scheduling, system calls, IPC,
//! shared memory and semaphores, with every operation stated as a contract.

pub mod err;
pub mod bitops;
pub mod mmu;
pub mod page_table;
pub mod queue;
pub mod frame;
pub mod tlb;
pub mod traps;
pub mod env;
pub mod mapping;
pub mod teardown;
pub mod segment;
pub mod print;
pub mod sem;
pub mod shm;
pub mod elf;
pub mod loader;
pub mod device;
pub mod syscall;
pub mod init;
pub mod isolation;
pub mod release;
pub mod heap;
pub mod string;
