//! Filesystem detection helpers for strategy selection.
//!
//! What the host is, and what it reports about a path, are facts that the
//! caller reads; the rules that turn them into a choice are here.

use vstd::prelude::*;

use super::StrategyKind;
use crate::text::{ascii_uppercase, contains_word, has_infix, uppercase_chars};

verus! {

/// The family of operating system that runs the scan.
#[derive(Debug, Clone, Copy, PartialEq, Eq, Structural)]
pub enum HostOs {
    Windows,
    MacOs,
    Linux,
    /// A Unix other than macOS and Linux.
    OtherUnix,
    Other,
}

impl HostOs {
    /// Whether paths on this host use the backslash as a separator.
    pub open spec fn spec_is_windows(self) -> bool {
        self == HostOs::Windows
    }

    /// Whether the host offers the POSIX directory interface.
    pub open spec fn spec_is_unix(self) -> bool {
        self == HostOs::MacOs || self == HostOs::Linux || self == HostOs::OtherUnix
    }

    #[verifier::when_used_as_spec(spec_is_windows)]
    pub fn is_windows(self) -> (r: bool)
        ensures
            r == self.spec_is_windows(),
    {
        self == HostOs::Windows
    }

    #[verifier::when_used_as_spec(spec_is_unix)]
    pub fn is_unix(self) -> (r: bool)
        ensures
            r == self.spec_is_unix(),
    {
        self == HostOs::MacOs || self == HostOs::Linux || self == HostOs::OtherUnix
    }
}

/// Normalized filesystem classifications used for strategy selection.
#[derive(Debug, Clone, Copy, PartialEq, Eq, Structural)]
pub enum FilesystemKind {
    Ntfs,
    Apfs,
    Ext,
    Other,
}

/// The classification of a filesystem on `host` whose type the host names
/// `fs_type_name` (nothing where the host could not tell).
pub open spec fn filesystem_kind_of(host: HostOs, fs_type_name: Option<Seq<char>>) -> FilesystemKind {
    match host {
        HostOs::Windows => FilesystemKind::Ntfs,
        HostOs::MacOs => match fs_type_name {
            Some(name) => if has_infix(ascii_uppercase(name), "APFS"@) {
                FilesystemKind::Apfs
            } else {
                FilesystemKind::Other
            },
            None => FilesystemKind::Other,
        },
        HostOs::Linux => FilesystemKind::Ext,
        HostOs::OtherUnix => FilesystemKind::Other,
        HostOs::Other => FilesystemKind::Other,
    }
}

/// The preferred strategy of each filesystem kind.
pub open spec fn preferred_strategy(kind: FilesystemKind) -> StrategyKind {
    match kind {
        FilesystemKind::Ntfs => StrategyKind::WindowsOptimized,
        FilesystemKind::Apfs => StrategyKind::PosixOptimized,
        FilesystemKind::Ext => StrategyKind::PosixOptimized,
        FilesystemKind::Other => StrategyKind::Legacy,
    }
}

/// Determine the filesystem kind for a path, from the host and from the
/// filesystem type name that the host reports for the path.
#[must_use]
pub fn filesystem_kind_for_path(host: HostOs, fs_type_name: Option<&str>) -> (kind: FilesystemKind)
    ensures
        kind == filesystem_kind_of(
            host,
            match fs_type_name {
                Some(name) => Some(name@),
                None => None,
            },
        ),
{
    match host {
        HostOs::Windows => detect_windows_filesystem(),
        HostOs::MacOs => detect_macos_filesystem(fs_type_name),
        HostOs::Linux | HostOs::OtherUnix => detect_unix_filesystem(host),
        HostOs::Other => FilesystemKind::Other,
    }
}

/// Return the default traversal strategy for the current host, from what
/// the host reports for the working directory (nothing where it has none).
#[must_use]
pub fn default_strategy(host: HostOs, working_dir_fs_type: Option<Option<&str>>) -> (kind:
    StrategyKind)
    ensures
        kind == match working_dir_fs_type {
            Some(name) => preferred_strategy(
                filesystem_kind_of(
                    host,
                    match name {
                        Some(n) => Some(n@),
                        None => None,
                    },
                ),
            ),
            None => StrategyKind::Legacy,
        },
{
    let fs_kind = match working_dir_fs_type {
        Some(name) => filesystem_kind_for_path(host, name),
        None => FilesystemKind::Other,
    };
    strategy_for_filesystem(fs_kind)
}

/// Map a filesystem kind to the preferred traversal strategy.
#[must_use]
pub fn strategy_for_filesystem(kind: FilesystemKind) -> (strategy: StrategyKind)
    ensures
        strategy == preferred_strategy(kind),
{
    match kind {
        FilesystemKind::Ntfs => StrategyKind::WindowsOptimized,
        FilesystemKind::Apfs | FilesystemKind::Ext => StrategyKind::PosixOptimized,
        FilesystemKind::Other => StrategyKind::Legacy,
    }
}

/// Every Windows volume is taken to be NTFS.
pub fn detect_windows_filesystem() -> (kind: FilesystemKind)
    ensures
        kind == FilesystemKind::Ntfs,
{
    FilesystemKind::Ntfs
}

/// A macOS volume is APFS where its type name says so, in any case of
/// letters.
pub fn detect_macos_filesystem(fs_type_name: Option<&str>) -> (kind: FilesystemKind)
    ensures
        kind == filesystem_kind_of(
            HostOs::MacOs,
            match fs_type_name {
                Some(name) => Some(name@),
                None => None,
            },
        ),
{
    match fs_type_name {
        None => FilesystemKind::Other,
        Some(name) => {
            let upper = uppercase_chars(name);
            if contains_word(&upper, "APFS") {
                FilesystemKind::Apfs
            } else {
                FilesystemKind::Other
            }
        },
    }
}

/// A Linux volume is taken to be of the ext family; other Unix volumes are
/// not classified.
pub fn detect_unix_filesystem(host: HostOs) -> (kind: FilesystemKind)
    ensures
        kind == if host == HostOs::Linux {
            FilesystemKind::Ext
        } else {
            FilesystemKind::Other
        },
{
    match host {
        HostOs::Linux => FilesystemKind::Ext,
        _ => FilesystemKind::Other,
    }
}

} // verus!
