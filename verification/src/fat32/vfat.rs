//! The FAT32 volume: picking the partition out of the boot record and
//! computing the volume layout from the parameter block.

use vstd::prelude::*;
use crate::fat32::mbr::MasterBootRecord;
use crate::fat32::ebpb::BiosParameterBlock;
use crate::fat32::cluster::Cluster;

verus! {

/// Errors setting up or reading the volume.
#[derive(Debug)]
pub enum Error {
    /// An error in the master boot record.
    Mbr(crate::fat32::mbr::Error),
    /// An I/O error from the block device.
    Io(crate::io::ErrorKind),
    /// A magic signature was invalid.
    BadSignature,
    /// No FAT32 partition exists on the device.
    NotFound,
}

/// The layout of one FAT32 volume: everything the read path needs to turn
/// a cluster number into sectors.
pub struct VFat {
    pub bytes_per_sector: u16,
    pub sectors_per_cluster: u8,
    pub sectors_per_fat: u32,
    pub fat_start_sector: u64,
    pub data_start_sector: u64,
    pub rootdir_cluster: Cluster,
}

/// The partition entry is one a FAT32 volume lives in (partition type
/// 0x0b or 0x0c).
pub open spec fn is_fat_partition(t: u8) -> bool {
    t == 0x0b || t == 0x0c
}

impl VFat {
    /// Finds the first FAT32 partition in the partition table and returns
    /// its starting sector; `NotFound` when no entry has a FAT32 type.
    pub fn find_partition(mbr: &MasterBootRecord) -> (r: Result<u64, Error>)
        requires
            mbr.partition_table@.len() == 4,
        ensures
            match r {
                Ok(sector) => exists|i: int|
                    0 <= i < 4 && is_fat_partition(
                        (#[trigger] mbr.partition_table@[i]).partition_type) && sector
                        == mbr.partition_table@[i].sector_offset && forall|j: int|
                        0 <= j < i ==> !is_fat_partition(
                            (#[trigger] mbr.partition_table@[j]).partition_type,
                        ),
                Err(e) => e is NotFound && forall|i: int|
                    0 <= i < 4 ==> !is_fat_partition(
                        (#[trigger] mbr.partition_table@[i]).partition_type,
                    ),
            },
    {
        let mut i: usize = 0;
        while i < 4
            invariant
                mbr.partition_table@.len() == 4,
                i <= 4,
                forall|j: int| 0 <= j < i ==> !is_fat_partition(
                    (#[trigger] mbr.partition_table@[j]).partition_type),
            decreases 4 - i,
        {
            let t = mbr.partition_table[i].partition_type;
            if t == 0x0b || t == 0x0c {
                return Ok(mbr.partition_table[i].sector_offset as u64);
            }
            i = i + 1;
        }
        Err(Error::NotFound)
    }

    /// Computes the volume layout from the partition's parameter block:
    /// the FAT begins after the reserved sectors, and the data region after
    /// all copies of the FAT.
    pub fn from(bpb: &BiosParameterBlock) -> (r: VFat)
        ensures
            r.bytes_per_sector == bpb.bytes_per_sector,
            r.sectors_per_cluster == bpb.sectors_per_cluster,
            r.sectors_per_fat == bpb.sectors_per_fat,
            r.fat_start_sector == bpb.reserved_sectors,
            r.data_start_sector == bpb.reserved_sectors + bpb.fats * bpb.sectors_per_fat,
            r.rootdir_cluster.0 == bpb.root_directory_cluster as int % 0x1000_0000,
    {
        proof {
            assert(bpb.fats as int * bpb.sectors_per_fat as int <= 255 * 0xffff_ffffu64)
                by (nonlinear_arith)
                requires
                    bpb.fats <= 255,
                    bpb.sectors_per_fat <= 0xffff_ffffu64,
            ;
        }
        let data_start = bpb.reserved_sectors as u64 + (bpb.fats as u64
            * bpb.sectors_per_fat as u64);
        VFat {
            bytes_per_sector: bpb.bytes_per_sector,
            sectors_per_cluster: bpb.sectors_per_cluster,
            sectors_per_fat: bpb.sectors_per_fat,
            fat_start_sector: bpb.reserved_sectors as u64,
            data_start_sector: data_start,
            rootdir_cluster: Cluster::from(bpb.root_directory_cluster),
        }
    }

    /// The size of one cluster in bytes.
    pub fn get_cluster_size(&self) -> (r: u64)
        ensures
            r == self.bytes_per_sector * self.sectors_per_cluster,
    {
        proof {
            assert(self.bytes_per_sector as int * self.sectors_per_cluster as int <= 0xffff
                * 255) by (nonlinear_arith)
                requires
                    self.bytes_per_sector <= 0xffff,
                    self.sectors_per_cluster <= 255,
            ;
        }
        self.bytes_per_sector as u64 * self.sectors_per_cluster as u64
    }
}

} // verus!
