//! File metadata as the sync engine reads it: an attribute bitmask, three
//! timestamps, and a size. The engine only ever inspects the read-only and
//! directory attribute bits, the last-write time, and the size.

use vstd::prelude::*;

verus! {

/// Attribute bit marking a file as read-only.
pub const ATTRIBUTE_READONLY: u32 = 0x00000001;

/// Attribute bit marking an entry as a directory.
pub const ATTRIBUTE_DIRECTORY: u32 = 0x00000010;

/// Metadata observed for one path: attribute bitmask, creation, last-access
/// and last-write timestamps, and size in bytes. A failed metadata query is
/// represented by the zeroed record.
#[derive(Clone, Copy, PartialEq, Eq, Structural, Debug)]
pub struct FileMeta {
    pub attributes: u32,
    pub creation_time: u64,
    pub access_time: u64,
    pub write_time: u64,
    pub size: u64,
}

impl FileMeta {
    /// The read-only attribute bit is set.
    pub open spec fn spec_is_read_only(self) -> bool {
        self.attributes & ATTRIBUTE_READONLY == ATTRIBUTE_READONLY
    }

    /// The directory attribute bit is set.
    pub open spec fn spec_is_directory(self) -> bool {
        self.attributes & ATTRIBUTE_DIRECTORY == ATTRIBUTE_DIRECTORY
    }

    pub fn is_read_only(&self) -> (b: bool)
        ensures
            b == self.spec_is_read_only(),
    {
        self.attributes & ATTRIBUTE_READONLY == ATTRIBUTE_READONLY
    }

    pub fn is_directory(&self) -> (b: bool)
        ensures
            b == self.spec_is_directory(),
    {
        self.attributes & ATTRIBUTE_DIRECTORY == ATTRIBUTE_DIRECTORY
    }

    /// The sentinel record standing in when a metadata query fails: every
    /// field zero.
    pub open spec fn spec_zeroed() -> FileMeta {
        FileMeta { attributes: 0, creation_time: 0, access_time: 0, write_time: 0, size: 0 }
    }

    /// The sentinel record used when a metadata query fails.
    pub fn zeroed() -> (m: FileMeta)
        ensures
            m == FileMeta::spec_zeroed(),
    {
        FileMeta { attributes: 0, creation_time: 0, access_time: 0, write_time: 0, size: 0 }
    }
}

/// Two sides agree for sync purposes: same last-write time and same size.
/// Content is never compared.
pub open spec fn spec_sync_identical(source: FileMeta, target: FileMeta) -> bool {
    source.write_time == target.write_time && source.size == target.size
}

pub fn sync_identical(source: &FileMeta, target: &FileMeta) -> (b: bool)
    ensures
        b == spec_sync_identical(*source, *target),
{
    source.write_time == target.write_time && source.size == target.size
}

} // verus!
