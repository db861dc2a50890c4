//! Unit tests for strategy selection.

use dua::services::traverse::detect::{
    default_strategy, filesystem_kind_for_path, strategy_for_filesystem, FilesystemKind, HostOs,
};
use dua::services::traverse::StrategyKind;

#[test]
fn maps_filesystem_kinds_to_expected_strategies() {
    assert_eq!(
        strategy_for_filesystem(FilesystemKind::Ntfs),
        StrategyKind::WindowsOptimized
    );
    assert_eq!(
        strategy_for_filesystem(FilesystemKind::Apfs),
        StrategyKind::PosixOptimized
    );
    assert_eq!(
        strategy_for_filesystem(FilesystemKind::Ext),
        StrategyKind::PosixOptimized
    );
    assert_eq!(
        strategy_for_filesystem(FilesystemKind::Other),
        StrategyKind::Legacy
    );
}

#[test]
fn detects_filesystem_kind_for_temp_dir() {
    assert_eq!(filesystem_kind_for_path(HostOs::Windows, None), FilesystemKind::Ntfs);
    assert!(matches!(
        filesystem_kind_for_path(HostOs::MacOs, Some("apfs")),
        FilesystemKind::Apfs | FilesystemKind::Other
    ));
    assert!(matches!(
        filesystem_kind_for_path(HostOs::Linux, Some("tmpfs")),
        FilesystemKind::Ext | FilesystemKind::Other
    ));
}

#[test]
fn filesystem_kinds_by_host() {
    assert_eq!(filesystem_kind_for_path(HostOs::Windows, Some("FAT32")), FilesystemKind::Ntfs);
    assert_eq!(filesystem_kind_for_path(HostOs::MacOs, Some("apfs")), FilesystemKind::Apfs);
    assert_eq!(filesystem_kind_for_path(HostOs::MacOs, Some("APFS")), FilesystemKind::Apfs);
    assert_eq!(filesystem_kind_for_path(HostOs::MacOs, Some("xapfsx")), FilesystemKind::Apfs);
    assert_eq!(filesystem_kind_for_path(HostOs::MacOs, Some("hfs")), FilesystemKind::Other);
    assert_eq!(filesystem_kind_for_path(HostOs::MacOs, Some("apf")), FilesystemKind::Other);
    assert_eq!(filesystem_kind_for_path(HostOs::MacOs, Some("")), FilesystemKind::Other);
    assert_eq!(filesystem_kind_for_path(HostOs::MacOs, None), FilesystemKind::Other);
    assert_eq!(filesystem_kind_for_path(HostOs::Linux, None), FilesystemKind::Ext);
    assert_eq!(filesystem_kind_for_path(HostOs::OtherUnix, Some("ufs")), FilesystemKind::Other);
    assert_eq!(filesystem_kind_for_path(HostOs::Other, Some("apfs")), FilesystemKind::Other);
}

#[test]
fn default_strategy_follows_the_working_directory() {
    assert_eq!(default_strategy(HostOs::Linux, Some(None)), StrategyKind::PosixOptimized);
    assert_eq!(default_strategy(HostOs::Linux, None), StrategyKind::Legacy);
    assert_eq!(default_strategy(HostOs::Windows, Some(None)), StrategyKind::WindowsOptimized);
    assert_eq!(default_strategy(HostOs::MacOs, Some(Some("apfs"))), StrategyKind::PosixOptimized);
    assert_eq!(default_strategy(HostOs::MacOs, Some(Some("hfs"))), StrategyKind::Legacy);
    assert_eq!(default_strategy(HostOs::Other, Some(None)), StrategyKind::Legacy);
}

#[test]
fn strategy_labels_round_trip() {
    for kind in [
        StrategyKind::Legacy,
        StrategyKind::WindowsOptimized,
        StrategyKind::PosixOptimized,
    ] {
        assert_eq!(StrategyKind::from_label(kind.as_str()), Some(kind));
        assert_eq!(kind.to_string(), kind.as_str());
    }
    assert_eq!(StrategyKind::Legacy.as_str(), "legacy");
    assert_eq!(StrategyKind::WindowsOptimized.as_str(), "windows");
    assert_eq!(StrategyKind::PosixOptimized.as_str(), "posix");
    assert_eq!(StrategyKind::from_label("NTFS"), Some(StrategyKind::WindowsOptimized));
    assert_eq!(StrategyKind::from_label("Unix"), Some(StrategyKind::PosixOptimized));
    assert_eq!(StrategyKind::from_label("LEGACY"), Some(StrategyKind::Legacy));
    assert_eq!(StrategyKind::from_label("fast"), None);
    assert_eq!(StrategyKind::from_label(""), None);
    assert_eq!(StrategyKind::default(), StrategyKind::Legacy);
}
