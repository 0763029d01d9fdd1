//! Boot tags (ATAGs): the records the firmware leaves in memory to
//! describe the machine. Walking the raw tag list is the boot code's work;
//! here are the decoded tags and their accessors.

use vstd::prelude::*;

verus! {

/// A `CORE` tag: flags, page size, and root device.
#[derive(PartialEq, Eq, Structural, Debug, Copy, Clone)]
pub struct Core {
    pub flags: u32,
    pub page_size: u32,
    pub root_dev: u32,
}

/// A `MEM` tag: one contiguous region of physical memory.
#[derive(PartialEq, Eq, Structural, Debug, Copy, Clone)]
pub struct Mem {
    pub size: u32,
    pub start: u32,
}

/// An ATAG.
pub enum Atag {
    Core(Core),
    Mem(Mem),
    Cmd(String),
    Unknown(u32),
    End,
}

impl Atag {
    /// Returns `Some` if this is a `Core` ATAG. Otherwise returns `None`.
    pub fn core_tag(self) -> (r: Option<Core>)
        ensures
            match self {
                Atag::Core(d) => r == Some(d),
                _ => r is None,
            },
    {
        match self {
            Atag::Core(d) => Some(d),
            _ => Option::None,
        }
    }

    /// Returns `Some` if this is a `Mem` ATAG. Otherwise returns `None`.
    pub fn mem(self) -> (r: Option<Mem>)
        ensures
            match self {
                Atag::Mem(e) => r == Some(e),
                _ => r is None,
            },
    {
        match self {
            Atag::Mem(e) => Some(e),
            _ => Option::None,
        }
    }

    /// Returns `Some` with the command line string if this is a `Cmd`
    /// ATAG. Otherwise returns `None`.
    pub fn cmd(self) -> (r: Option<String>)
        ensures
            match self {
                Atag::Cmd(s) => r is Some && r->0@ == s@,
                _ => r is None,
            },
    {
        match self {
            Atag::Cmd(s) => Some(s),
            _ => Option::None,
        }
    }
}

} // verus!
