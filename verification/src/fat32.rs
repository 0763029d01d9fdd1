//! The pure parts of the read-only FAT32 file system the kernel boots
//! from: the master boot record, the BIOS parameter block, cluster
//! arithmetic, directory-entry metadata, and file entries. Reading sectors
//! off the card is the block device's work and stays outside this crate;
//! everything here computes over bytes already read.

pub mod mbr;
pub mod ebpb;
pub mod cluster;
pub mod metadata;
pub mod file;
pub mod entry;
pub mod vfat;
