//! Directory-entry metadata as represented in FAT32 on-disk structures:
//! packed dates, times, and attribute flags.

use vstd::prelude::*;

verus! {

/// A date as represented in FAT32 on-disk structures: bits 15:9 the year
/// since 1980, bits 8:5 the month, bits 4:0 the day.
#[derive(PartialEq, Eq, Structural, Default, Debug, Copy, Clone)]
pub struct Date(pub u16);

/// A time as represented in FAT32 on-disk structures: bits 15:11 the hour,
/// bits 10:5 the minute, bits 4:0 the second divided by two.
#[derive(PartialEq, Eq, Structural, Default, Debug, Copy, Clone)]
pub struct Time(pub u16);

/// File attributes as represented in FAT32 on-disk structures, one flag a
/// bit: read-only, hidden, system, volume id, directory, archive.
#[derive(PartialEq, Eq, Structural, Default, Debug, Copy, Clone)]
pub struct Attributes(pub u8);

/// A date and time together.
#[derive(PartialEq, Eq, Structural, Default, Copy, Clone, Debug)]
pub struct Timestamp {
    pub date: Date,
    pub time: Time,
}

/// Metadata of one directory entry, fields in their on-disk order.
#[derive(PartialEq, Eq, Structural, Default, Debug, Copy, Clone)]
pub struct Metadata {
    pub attributes: Attributes,
    pub reserved: u8,
    pub creation_time_tenths_s: u8,
    pub created_time: Time,
    pub created_date: Date,
    pub accessed_date: Date,
    pub first_cluster_high: u16,
    pub modified_time: Time,
    pub modified_date: Date,
    pub first_cluster_low: u16,
}

impl Metadata {
    /// The entry's first cluster, assembled from its two 16-bit halves.
    pub fn first_cluster(&self) -> (r: u32)
        ensures
            r == self.first_cluster_low + self.first_cluster_high * 0x1_0000,
    {
        self.first_cluster_low as u32 + self.first_cluster_high as u32 * 0x1_0000
    }

    /// The directory flag (attribute bit 4).
    pub fn is_dir(&self) -> (r: bool)
        ensures
            r == ((self.attributes.0 as int / 16) % 2 == 1),
    {
        (self.attributes.0 / 16) % 2 == 1
    }

    /// The system flag (attribute bit 2).
    pub fn is_system(&self) -> (r: bool)
        ensures
            r == ((self.attributes.0 as int / 4) % 2 == 1),
    {
        (self.attributes.0 / 4) % 2 == 1
    }

    /// The volume-id flag (attribute bit 3).
    pub fn is_volume_id(&self) -> (r: bool)
        ensures
            r == ((self.attributes.0 as int / 8) % 2 == 1),
    {
        (self.attributes.0 / 8) % 2 == 1
    }

    /// The archive flag (attribute bit 5).
    pub fn is_archive(&self) -> (r: bool)
        ensures
            r == ((self.attributes.0 as int / 32) % 2 == 1),
    {
        (self.attributes.0 / 32) % 2 == 1
    }

    /// The read-only flag (attribute bit 0).
    pub fn read_only(&self) -> (r: bool)
        ensures
            r == (self.attributes.0 as int % 2 == 1),
    {
        self.attributes.0 % 2 == 1
    }

    /// The hidden flag (attribute bit 1).
    pub fn hidden(&self) -> (r: bool)
        ensures
            r == ((self.attributes.0 as int / 2) % 2 == 1),
    {
        (self.attributes.0 / 2) % 2 == 1
    }

    /// When the entry was created.
    pub fn created(&self) -> (r: Timestamp)
        ensures
            r.time == self.created_time,
            r.date == self.created_date,
    {
        Timestamp { time: self.created_time, date: self.created_date }
    }

    /// When the entry was last accessed (the format keeps no time of day).
    pub fn accessed(&self) -> (r: Timestamp)
        ensures
            r.time == Time(0),
            r.date == self.accessed_date,
    {
        Timestamp { time: Time(0), date: self.accessed_date }
    }

    /// When the entry was last modified.
    pub fn modified(&self) -> (r: Timestamp)
        ensures
            r.time == self.modified_time,
            r.date == self.modified_date,
    {
        Timestamp { time: self.modified_time, date: self.modified_date }
    }
}

impl Timestamp {
    /// The calendar year (the stored field counts from 1980).
    pub fn year(&self) -> (r: usize)
        ensures
            r == (self.date.0 as int / 512) % 128 + 1980,
    {
        ((self.date.0 / 512) % 128) as usize + 1980
    }

    /// The month of the year, 1 through 12.
    pub fn month(&self) -> (r: u8)
        ensures
            r == (self.date.0 as int / 32) % 16,
    {
        ((self.date.0 / 32) % 16) as u8
    }

    /// The day of the month, 1 through 31.
    pub fn day(&self) -> (r: u8)
        ensures
            r == self.date.0 as int % 32,
    {
        (self.date.0 % 32) as u8
    }

    /// The hour of the day, 0 through 23.
    pub fn hour(&self) -> (r: u8)
        ensures
            r == (self.time.0 as int / 2048) % 32,
    {
        ((self.time.0 / 2048) % 32) as u8
    }

    /// The minute of the hour, 0 through 59.
    pub fn minute(&self) -> (r: u8)
        ensures
            r == (self.time.0 as int / 32) % 64,
    {
        ((self.time.0 / 32) % 64) as u8
    }

    /// The second of the minute, in two-second resolution.
    pub fn second(&self) -> (r: u8)
        ensures
            r == (self.time.0 as int % 32) * 2,
    {
        ((self.time.0 % 32) * 2) as u8
    }
}

} // verus!
