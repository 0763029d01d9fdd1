//! A directory entry: a file or a directory.

use vstd::prelude::*;
use crate::fat32::cluster::Cluster;
use crate::fat32::metadata::Metadata;
use crate::fat32::file::File;

verus! {

/// A directory on the volume.
pub struct Dir {
    pub first_cluster: Cluster,
    pub name: String,
    pub metadata: Metadata,
}

/// One entry of a directory listing.
pub enum Entry {
    File(File),
    Dir(Dir),
}

impl Entry {
    /// The entry's name.
    pub fn name(&self) -> (r: &String)
        ensures
            r@ == match self {
                Entry::File(f) => f.name@,
                Entry::Dir(d) => d.name@,
            },
    {
        match self {
            Entry::File(f) => &f.name,
            Entry::Dir(d) => &d.name,
        }
    }

    /// The entry's metadata.
    pub fn metadata(&self) -> (r: &Metadata)
        ensures
            r == match self {
                Entry::File(f) => f.metadata,
                Entry::Dir(d) => d.metadata,
            },
    {
        match self {
            Entry::File(f) => &f.metadata,
            Entry::Dir(d) => &d.metadata,
        }
    }

    /// The file, if this entry is one.
    pub fn as_file(&self) -> (r: Option<&File>)
        ensures
            match self {
                Entry::File(f) => r == Some(f),
                Entry::Dir(d) => r is None,
            },
    {
        match self {
            Entry::File(f) => Some(f),
            Entry::Dir(d) => Option::None,
        }
    }

    /// The directory, if this entry is one.
    pub fn as_dir(&self) -> (r: Option<&Dir>)
        ensures
            match self {
                Entry::File(f) => r is None,
                Entry::Dir(d) => r == Some(d),
            },
    {
        match self {
            Entry::File(f) => Option::None,
            Entry::Dir(d) => Some(d),
        }
    }

    /// The file, consuming the entry.
    pub fn into_file(self) -> (r: Option<File>)
        ensures
            match self {
                Entry::File(f) => r == Some(f),
                Entry::Dir(d) => r is None,
            },
    {
        match self {
            Entry::File(f) => Some(f),
            Entry::Dir(d) => Option::None,
        }
    }

    /// The directory, consuming the entry.
    pub fn into_dir(self) -> (r: Option<Dir>)
        ensures
            match self {
                Entry::File(f) => r is None,
                Entry::Dir(d) => r == Some(d),
            },
    {
        match self {
            Entry::File(f) => Option::None,
            Entry::Dir(d) => Some(d),
        }
    }
}

} // verus!
