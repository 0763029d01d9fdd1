//! The FAT32 extended BIOS parameter block: the first sector of the
//! partition, describing the volume's layout.

use vstd::prelude::*;
use crate::fat32::mbr::{le16, le32, le16_at, le32_at};
use crate::fat32::vfat::Error;

verus! {

/// The fields of the parameter block that the volume layout is computed
/// from, at their on-disk offsets.
pub struct BiosParameterBlock {
    pub bytes_per_sector: u16,
    pub sectors_per_cluster: u8,
    pub reserved_sectors: u16,
    pub fats: u8,
    pub max_directory_entries: u16,
    pub total_logical_sectors_smol: u16,
    pub fat_id: u8,
    pub sectors_per_fat_smol: u16,
    pub sectors_per_track: u16,
    pub heads: u16,
    pub hidden_sectors: u32,
    pub total_logical_sectors: u32,
    pub sectors_per_fat: u32,
    pub flags: u16,
    pub version_number: u16,
    pub root_directory_cluster: u32,
    pub fsinfo_sector: u16,
    pub backup_boot_sector: u16,
    pub drive_number: u8,
    pub signature: u8,
    pub volume_id: u32,
    pub bootable_partition_signature: u16,
}

impl BiosParameterBlock {
    /// Parses the FAT32 extended BIOS parameter block from the 512 bytes
    /// of its sector. If the sector does not end in the magic `0xaa55`,
    /// returns `BadSignature`.
    pub fn from(buf: &Vec<u8>) -> (r: Result<BiosParameterBlock, Error>)
        requires
            buf@.len() == 512,
        ensures
            match r {
                Ok(b) => {
                    &&& le16_at(buf@, 510) == 0xaa55
                    &&& b.bytes_per_sector == le16_at(buf@, 11)
                    &&& b.sectors_per_cluster == buf@[13]
                    &&& b.reserved_sectors == le16_at(buf@, 14)
                    &&& b.fats == buf@[16]
                    &&& b.max_directory_entries == le16_at(buf@, 17)
                    &&& b.total_logical_sectors_smol == le16_at(buf@, 19)
                    &&& b.fat_id == buf@[21]
                    &&& b.sectors_per_fat_smol == le16_at(buf@, 22)
                    &&& b.sectors_per_track == le16_at(buf@, 24)
                    &&& b.heads == le16_at(buf@, 26)
                    &&& b.hidden_sectors == le32_at(buf@, 28)
                    &&& b.total_logical_sectors == le32_at(buf@, 32)
                    &&& b.sectors_per_fat == le32_at(buf@, 36)
                    &&& b.flags == le16_at(buf@, 40)
                    &&& b.version_number == le16_at(buf@, 42)
                    &&& b.root_directory_cluster == le32_at(buf@, 44)
                    &&& b.fsinfo_sector == le16_at(buf@, 48)
                    &&& b.backup_boot_sector == le16_at(buf@, 50)
                    &&& b.drive_number == buf@[64]
                    &&& b.signature == buf@[66]
                    &&& b.volume_id == le32_at(buf@, 67)
                    &&& b.bootable_partition_signature == 0xaa55
                },
                Err(e) => e is BadSignature && le16_at(buf@, 510) != 0xaa55,
            },
    {
        let bootable_partition_signature = le16(buf, 510);
        if bootable_partition_signature != 0xaa55 {
            return Err(Error::BadSignature);
        }
        Ok(BiosParameterBlock {
            bytes_per_sector: le16(buf, 11),
            sectors_per_cluster: buf[13],
            reserved_sectors: le16(buf, 14),
            fats: buf[16],
            max_directory_entries: le16(buf, 17),
            total_logical_sectors_smol: le16(buf, 19),
            fat_id: buf[21],
            sectors_per_fat_smol: le16(buf, 22),
            sectors_per_track: le16(buf, 24),
            heads: le16(buf, 26),
            hidden_sectors: le32(buf, 28),
            total_logical_sectors: le32(buf, 32),
            sectors_per_fat: le32(buf, 36),
            flags: le16(buf, 40),
            version_number: le16(buf, 42),
            root_directory_cluster: le32(buf, 44),
            fsinfo_sector: le16(buf, 48),
            backup_boot_sector: le16(buf, 50),
            drive_number: buf[64],
            signature: buf[66],
            volume_id: le32(buf, 67),
            bootable_partition_signature,
        })
    }
}

} // verus!
