//! A file on the volume: its chain start, metadata, size, and seek state.

use vstd::prelude::*;
use crate::fat32::cluster::Cluster;
use crate::fat32::metadata::Metadata;
use crate::io::{SeekFrom, Error, ErrorKind, kind_of};

verus! {

/// A regular file. Reading its bytes goes through the block device and the
/// file allocation table; the file value itself carries what the directory
/// said about it and the current seek offset.
pub struct File {
    pub first_cluster: Cluster,
    pub name: String,
    pub metadata: Metadata,
    pub seek_offset: u64,
    pub file_size: u64,
}

impl File {
    /// The file's size in bytes.
    pub fn size(&self) -> (r: u64)
        ensures
            r == self.file_size,
    {
        self.file_size
    }

    /// Seek to offset `pos` in the file.
    ///
    /// A seek to the end of the file is allowed; a seek before the start
    /// or beyond the end results in an `InvalidInput` error and leaves the
    /// offset unchanged.
    pub fn seek(&mut self, pos: SeekFrom) -> (r: Result<u64, Error>)
        requires
            old(self).file_size <= i64::MAX,
            old(self).seek_offset <= old(self).file_size,
        ensures
            final(self).first_cluster == old(self).first_cluster,
            final(self).name@ == old(self).name@,
            final(self).metadata == old(self).metadata,
            final(self).file_size == old(self).file_size,
            ({
                let target = match pos {
                    SeekFrom::Start(p) => p as int,
                    SeekFrom::End(p) => old(self).file_size + p,
                    SeekFrom::Current(p) => old(self).seek_offset + p,
                };
                if 0 <= target <= old(self).file_size {
                    &&& r == Ok::<u64, Error>(target as u64)
                    &&& final(self).seek_offset == target
                } else {
                    &&& r is Err && kind_of(r->Err_0.repr) == ErrorKind::InvalidInput
                    &&& final(self).seek_offset == old(self).seek_offset
                }
            }),
    {
        match pos {
            SeekFrom::Start(p) => {
                if p > self.file_size {
                    Err(Error::new(ErrorKind::InvalidInput, "attempt to seek outside file"))
                } else {
                    self.seek_offset = p;
                    Ok(p)
                }
            },
            SeekFrom::End(p) => {
                let size = self.file_size as i64;
                if p < -size || p > 0 {
                    Err(Error::new(ErrorKind::InvalidInput, "attempt to seek outside file"))
                } else {
                    let offset = size + p;
                    self.seek_offset = offset as u64;
                    Ok(offset as u64)
                }
            },
            SeekFrom::Current(p) => {
                let here = self.seek_offset as i64;
                if p < -here || p > self.file_size as i64 - here {
                    Err(Error::new(ErrorKind::InvalidInput, "attempt to seek outside file"))
                } else {
                    let offset = here + p;
                    self.seek_offset = offset as u64;
                    Ok(offset as u64)
                }
            },
        }
    }
}

} // verus!
