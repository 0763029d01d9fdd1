//! Layout constants of the kernel: page geometry, the user address space
//! window, the peripheral window, and the scheduler quantum.

use vstd::prelude::*;

verus! {

/// Size of a physical page frame: the translation granule is 64 KiB.
pub const PAGE_SIZE: u64 = 65536;

/// Alignment of a page frame (equal to its size).
pub const PAGE_ALIGN: u64 = 65536;

/// Number of entries in one translation table (8192 eight-byte entries
/// fill one page exactly).
pub const PT_ENTRIES: usize = 8192;

/// Base of the user image region in the high half of the address space.
pub const USER_IMG_BASE: u64 = 0xffff_ffff_c000_0000;

/// Base virtual address of the page that holds a user process's stack.
pub const USER_STACK_BASE: u64 = 0xffff_ffff_ffff_0000;

/// First physical address of the memory-mapped peripheral window.
pub const IO_BASE: u64 = 0x3f00_0000;

/// One past the last physical address of the peripheral window.
pub const IO_BASE_END: u64 = 0x4000_0000;

/// Scheduler quantum in microseconds: a timer match is armed this far
/// in the future on every tick.
pub const TICK_US: u64 = 10000;

} // verus!
