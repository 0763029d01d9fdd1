//! Core of a small preemptive operating system for 64-bit ARM boards:
//! a segregated free-list physical memory allocator, a two-level page-table
//! manager with a 64 KiB granule, a round-robin scheduler with sleep-style
//! waits, the trap/syscall dispatch logic, and the pure parts of the FAT32
//! on-disk structures that the kernel reads its programs from.
//!
//! Hardware access (MMIO registers, the serial port, raw memory) lives
//! outside this crate; everything here works on plain values and is verified.

pub mod util;
pub mod param;
pub mod allocator;
pub mod vm;
pub mod process;
pub mod scheduler;
pub mod syndrome;
pub mod syscall;
pub mod traps;
pub mod io;
pub mod fat32;
pub mod shell;
pub mod atag;
pub mod interrupt;

