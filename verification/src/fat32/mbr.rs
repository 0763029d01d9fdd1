//! The master boot record: the first sector of the card, holding the
//! partition table.

use vstd::prelude::*;

verus! {

/// A little-endian 16-bit value at offset `i` of a byte sequence.
pub open spec fn le16_at(s: Seq<u8>, i: int) -> int {
    s[i] + s[i + 1] * 0x100
}

/// A little-endian 32-bit value at offset `i` of a byte sequence.
pub open spec fn le32_at(s: Seq<u8>, i: int) -> int {
    s[i] + s[i + 1] * 0x100 + s[i + 2] * 0x1_0000 + s[i + 3] * 0x100_0000
}

/// A legacy cylinder/head/sector position.
#[derive(PartialEq, Eq, Structural, Copy, Clone, Debug)]
pub struct CHS {
    pub head: u8,
    pub sector: u8,
    pub cylinder: u8,
}

/// One entry of the partition table.
#[derive(PartialEq, Eq, Structural, Copy, Clone, Debug)]
pub struct PartitionEntry {
    pub boot_indicator: u8,
    pub start: CHS,
    pub partition_type: u8,
    pub end: CHS,
    pub sector_offset: u32,
    pub num_sectors: u32,
}

/// The partition entry encoded at offset `off` of a sector.
pub open spec fn partition_at(s: Seq<u8>, off: int) -> PartitionEntry {
    PartitionEntry {
        boot_indicator: s[off],
        start: CHS { head: s[off + 1], sector: s[off + 2], cylinder: s[off + 3] },
        partition_type: s[off + 4],
        end: CHS { head: s[off + 5], sector: s[off + 6], cylinder: s[off + 7] },
        sector_offset: le32_at(s, off + 8) as u32,
        num_sectors: le32_at(s, off + 12) as u32,
    }
}

/// The master boot record: 436 bytes of bootstrap code, a disk id, four
/// partition entries, and a magic signature.
pub struct MasterBootRecord {
    pub disk_id: Vec<u8>,
    pub partition_table: Vec<PartitionEntry>,
    pub signature: u16,
}

/// Errors reading the master boot record.
#[derive(Debug)]
pub enum Error {
    /// There was an I/O error while reading the MBR.
    Io(crate::io::Error),
    /// The partition at this (0-indexed) slot has an invalid boot
    /// indicator.
    UnknownBootIndicator(u8),
    /// The MBR magic signature was invalid.
    BadSignature,
}

impl MasterBootRecord {
    /// Parses the master boot record from the 512 bytes of sector zero.
    ///
    /// Returns `UnknownBootIndicator(n)` for the first partition entry `n`
    /// whose boot indicator has a bit besides the top one set, and
    /// `BadSignature` when the sector does not end in the magic `0xaa55`.
    pub fn from(buf: &Vec<u8>) -> (r: Result<MasterBootRecord, Error>)
        requires
            buf@.len() == 512,
        ensures
            match r {
                Ok(m) => {
                    &&& forall|k: int| 0 <= k < 4 ==> (#[trigger] partition_at(buf@, 446 + k
                        * 16)).boot_indicator as int % 128 == 0
                    &&& le16_at(buf@, 510) == 0xaa55
                    &&& m.disk_id@ == buf@.subrange(436, 446)
                    &&& m.partition_table@.len() == 4
                    &&& forall|k: int| 0 <= k < 4 ==> #[trigger] m.partition_table@[k]
                        == partition_at(buf@, 446 + k * 16)
                    &&& m.signature == 0xaa55
                },
                Err(Error::UnknownBootIndicator(n)) => {
                    &&& n < 4
                    &&& partition_at(buf@, 446 + n * 16).boot_indicator as int % 128 != 0
                    &&& forall|k: int| 0 <= k < n ==> (#[trigger] partition_at(buf@, 446 + k
                        * 16)).boot_indicator as int % 128 == 0
                },
                Err(Error::BadSignature) => {
                    &&& forall|k: int| 0 <= k < 4 ==> (#[trigger] partition_at(buf@, 446 + k
                        * 16)).boot_indicator as int % 128 == 0
                    &&& le16_at(buf@, 510) != 0xaa55
                },
                Err(Error::Io(e)) => false,
            },
    {
        let mut partition_table: Vec<PartitionEntry> = Vec::new();
        let mut k: usize = 0;
        while k < 4
            invariant
                buf@.len() == 512,
                k <= 4,
                partition_table@.len() == k,
                forall|j: int| 0 <= j < k ==> #[trigger] partition_table@[j] == partition_at(
                    buf@, 446 + j * 16),
                forall|j: int| 0 <= j < k ==> (#[trigger] partition_at(buf@, 446 + j
                    * 16)).boot_indicator as int % 128 == 0,
            decreases 4 - k,
        {
            let off = 446 + k * 16;
            let entry = PartitionEntry {
                boot_indicator: buf[off],
                start: CHS { head: buf[off + 1], sector: buf[off + 2], cylinder: buf[off + 3] },
                partition_type: buf[off + 4],
                end: CHS { head: buf[off + 5], sector: buf[off + 6], cylinder: buf[off + 7] },
                sector_offset: le32(buf, off + 8),
                num_sectors: le32(buf, off + 12),
            };
            if entry.boot_indicator % 128 != 0 {
                return Err(Error::UnknownBootIndicator(k as u8));
            }
            partition_table.push(entry);
            k = k + 1;
        }
        let signature = le16(buf, 510);
        if signature != 0xaa55 {
            return Err(Error::BadSignature);
        }
        let mut disk_id: Vec<u8> = Vec::new();
        let mut i: usize = 436;
        while i < 446
            invariant
                buf@.len() == 512,
                436 <= i <= 446,
                disk_id@ == buf@.subrange(436, i as int),
            decreases 446 - i,
        {
            disk_id.push(buf[i]);
            proof {
                assert(disk_id@ =~= buf@.subrange(436, i + 1));
            }
            i = i + 1;
        }
        Ok(MasterBootRecord { disk_id, partition_table, signature })
    }
}

/// Reads a little-endian 16-bit value.
pub fn le16(buf: &Vec<u8>, off: usize) -> (r: u16)
    requires
        off + 2 <= buf@.len(),
    ensures
        r == le16_at(buf@, off as int),
{
    let n = buf.len();
    buf[off] as u16 + buf[off + 1] as u16 * 0x100
}

/// Reads a little-endian 32-bit value.
pub fn le32(buf: &Vec<u8>, off: usize) -> (r: u32)
    requires
        off + 4 <= buf@.len(),
    ensures
        r == le32_at(buf@, off as int),
{
    let n = buf.len();
    buf[off] as u32 + buf[off + 1] as u32 * 0x100 + buf[off + 2] as u32 * 0x1_0000 + buf[off
        + 3] as u32 * 0x100_0000
}

} // verus!
