//! What a scan reads from a filesystem, as plain values.
//!
//! A caller that walks a real filesystem hands these values over one at a
//! time; a caller that already holds a whole tree hands over its root.

use vstd::prelude::*;

use super::detect::HostOs;
use super::legacy::FileId;

verus! {

/// What kind of thing a directory entry is, by its own metadata (a symbolic
/// link is a link, whatever it points to).
#[derive(Debug, Clone, Copy, PartialEq, Eq, Structural)]
pub enum NodeKind {
    File,
    Directory,
    Symlink,
    Other,
}

/// The class of a failed filesystem operation.
#[derive(Debug, Clone, Copy, PartialEq, Eq, Structural)]
pub enum IoErrorKind {
    /// The entry vanished between enumeration and inspection.
    NotFound,
    /// The entry is unreadable.
    PermissionDenied,
    /// Every other platform error.
    Other,
}

/// A failed filesystem operation.
#[derive(Debug)]
pub struct IoFailure {
    pub kind: IoErrorKind,
    pub message: String,
}

/// The metadata of one entry, obtained without following links.
#[derive(Debug, Clone, Copy)]
pub struct FileMeta {
    pub kind: NodeKind,
    /// Nominal length in bytes.
    pub logical_len: u64,
    /// On-disk byte count, where the platform could tell.
    pub physical_len: Option<u64>,
    /// Identifier of the filesystem that holds the entry.
    pub device: u64,
    /// Stable identity of the file, where one could be obtained.
    pub file_id: Option<FileId>,
}

/// One item of a directory listing.
#[derive(Debug)]
pub enum DirItem {
    /// An entry, with what was read of it.
    Entry(FsNode),
    /// The listing failed at this item.
    Unreadable(IoFailure),
}

/// An entry of a filesystem with everything below it.
#[derive(Debug)]
pub struct FsNode {
    /// The name of the entry in its directory; for the root of a scan, the
    /// path under which the scan was asked for.
    pub name: String,
    /// The entry's metadata, or why it could not be read.
    pub meta: Result<FileMeta, IoFailure>,
    /// The items of the directory, or why it could not be listed. Of no
    /// meaning unless the entry is a directory.
    pub listing: Result<Vec<DirItem>, IoFailure>,
}

/// The root of a scan together with what the host says of it.
#[derive(Debug)]
pub struct ScanTarget {
    pub host: HostOs,
    /// The filesystem type that the host names for the root.
    pub fs_type_name: Option<String>,
    /// What the root path leads to once links are followed; nothing where
    /// it leads nowhere.
    pub resolved_kind: Option<NodeKind>,
    pub root: FsNode,
}

} // verus!
