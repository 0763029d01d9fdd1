//! Cluster numbers and where their FAT entries live.

use vstd::prelude::*;

verus! {

/// A cluster number. The top four bits of an on-disk cluster value are
/// reserved and dropped on entry.
#[derive(PartialEq, Eq, Structural, Debug, Copy, Clone)]
pub struct Cluster(pub u32);

impl Cluster {
    /// Takes a raw on-disk cluster value, dropping the reserved top bits.
    pub fn from(raw_num: u32) -> (r: Cluster)
        ensures
            r.0 == raw_num as int % 0x1000_0000,
    {
        Cluster(raw_num % 0x1000_0000)
    }

    /// The sector of the file allocation table that holds this cluster's
    /// entry: each entry is four bytes.
    pub fn fat_table_sector(&self, fat_start_sector: u64, bytes_per_sector: u16) -> (r: u64)
        requires
            bytes_per_sector > 0,
            fat_start_sector + (self.0 as int * 4) / bytes_per_sector as int <= u64::MAX,
        ensures
            r == fat_start_sector + (self.0 as int * 4) / bytes_per_sector as int,
    {
        fat_start_sector + self.0 as u64 * 4 / bytes_per_sector as u64
    }

    /// The index of this cluster's entry within its FAT sector.
    pub fn fat_sector_index(&self, fat_sector_len: usize) -> (r: usize)
        requires
            fat_sector_len > 0,
        ensures
            r == self.0 as int % fat_sector_len as int,
    {
        self.0 as usize % fat_sector_len
    }

    /// The cluster number itself.
    pub fn get_value(&self) -> (r: u32)
        ensures
            r == self.0,
    {
        self.0
    }
}

} // verus!
