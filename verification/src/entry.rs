//! Directory entries and listing requests.

use vstd::prelude::*;

verus! {

/// A single file system entry (file, directory, or symlink).
///
/// Paths are held as UTF-8 strings; `modified` counts nanoseconds since the
/// Unix epoch.
#[derive(Clone, Debug)]
pub struct Entry {
    pub path: String,
    pub name: String,
    pub entry_type: EntryType,
    pub size: u64,
    pub modified: Option<u64>,
    pub permissions: Option<u32>,
    pub is_hidden: bool,
    pub is_symlink: bool,
    pub symlink_target: Option<String>,
}

/// Kind of a file system entry.
#[derive(Clone, Copy, Debug, PartialEq, Eq, Structural)]
pub enum EntryType {
    File,
    Directory,
    Symlink,
    Unknown,
}

/// Sort criteria for directory listings.
#[derive(Clone, Copy, Debug, PartialEq, Eq, Structural)]
pub enum SortBy {
    Name,
    NameInsensitive,
    Size,
    Modified,
    Extension,
    Type,
}

/// Direction for sorting.
#[derive(Clone, Copy, Debug, PartialEq, Eq, Structural)]
pub enum SortDir {
    Ascending,
    Descending,
}

/// Request to list a directory.
#[derive(Clone, Debug)]
pub struct ListDirRequest {
    pub path: String,
    pub show_hidden: bool,
    pub sort_by: SortBy,
    pub sort_dir: SortDir,
    pub filter: Option<String>,
}

/// Result of a directory listing.
#[derive(Clone, Debug)]
pub struct ListDirResult {
    pub path: String,
    pub entries: Vec<Entry>,
    pub parent: Option<String>,
}

} // verus!
