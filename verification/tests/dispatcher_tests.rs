//! Strategy resolution and the parity of the strategies.

use dua::models::DirectoryEntry;
use dua::services::traverse::detect::{strategy_for_filesystem, filesystem_kind_for_path, HostOs};
use dua::services::traverse::legacy::{FileId, TraversalContext};
use dua::services::traverse::posix::PosixTraversal;
use dua::services::traverse::strategy::{is_supported_on, StrategyRegistry, TraversalStrategy};
use dua::services::traverse::tree::{DirItem, FileMeta, FsNode, NodeKind, ScanTarget};
use dua::services::traverse::windows::WindowsTraversal;
use dua::services::traverse::{StrategyKind, TraversalDispatcher};
use dua::{scan_summary, HardlinkPolicy, ScanOptions, SizeBasis, Summary};
use std::collections::HashMap;

fn meta(kind: NodeKind, len: u64, ino: u64) -> FileMeta {
    FileMeta {
        kind,
        logical_len: len,
        physical_len: Some(len.div_ceil(4096) * 4096),
        device: 7,
        file_id: Some(FileId { dev: 7, ino }),
    }
}

fn file(name: &str, len: u64, ino: u64) -> DirItem {
    DirItem::Entry(FsNode {
        name: name.to_string(),
        meta: Ok(meta(NodeKind::File, len, ino)),
        listing: Ok(Vec::new()),
    })
}

fn dir_node(name: &str, ino: u64, items: Vec<DirItem>) -> FsNode {
    FsNode {
        name: name.to_string(),
        meta: Ok(meta(NodeKind::Directory, 0, ino)),
        listing: Ok(items),
    }
}

fn on(host: HostOs, root: FsNode) -> ScanTarget {
    ScanTarget {
        host,
        fs_type_name: None,
        resolved_kind: Some(NodeKind::Directory),
        root,
    }
}

fn root_total(summary: &Summary) -> u64 {
    summary
        .entries
        .iter()
        .find(|entry| entry.parent_path.is_none())
        .map_or(0, |entry| entry.size_bytes)
}

#[test]
fn dispatcher_respects_strategy_override() {
    let opts = ScanOptions {
        strategy_override: Some(StrategyKind::Legacy),
        ..ScanOptions::default()
    };
    let dispatcher = TraversalDispatcher::for_platform(&opts, HostOs::Linux, Some(None));
    assert_eq!(dispatcher.active_strategy(), StrategyKind::Legacy);
    let dispatcher = TraversalDispatcher::for_platform(&opts, HostOs::Windows, Some(None));
    assert_eq!(dispatcher.active_strategy(), StrategyKind::Legacy);
    let dispatcher = TraversalDispatcher::for_options(&opts);
    assert_eq!(dispatcher.active_strategy(), StrategyKind::Legacy);
}

#[test]
fn dispatcher_defaults_to_windows_strategy() {
    let opts = ScanOptions::default();
    let dispatcher = TraversalDispatcher::for_platform(&opts, HostOs::Windows, Some(None));
    assert_eq!(dispatcher.active_strategy(), StrategyKind::WindowsOptimized);
}

#[test]
fn dispatcher_defaults_to_non_windows_strategy() {
    let opts = ScanOptions::default();
    for host in [HostOs::MacOs, HostOs::Linux, HostOs::OtherUnix, HostOs::Other] {
        let dispatcher = TraversalDispatcher::for_platform(&opts, host, Some(Some("apfs")));
        assert_ne!(dispatcher.active_strategy(), StrategyKind::WindowsOptimized);
    }
    let dispatcher = TraversalDispatcher::for_platform(&opts, HostOs::Linux, Some(None));
    assert_eq!(dispatcher.active_strategy(), StrategyKind::PosixOptimized);
    let dispatcher = TraversalDispatcher::for_platform(&opts, HostOs::Linux, None);
    assert_eq!(dispatcher.active_strategy(), StrategyKind::Legacy);
}

#[test]
fn dispatcher_propagates_progress_interval() {
    let opts = ScanOptions {
        progress_interval_ns: 750_000_000,
        ..ScanOptions::default()
    };
    let dispatcher = TraversalDispatcher::for_platform(&opts, HostOs::Linux, Some(None));
    assert_eq!(dispatcher.progress_interval(), 750_000_000);
    let dispatcher = TraversalDispatcher::for_options(&opts);
    assert_eq!(dispatcher.progress_interval(), 750_000_000);
    assert_eq!(TraversalDispatcher::default().progress_interval(), 2_000_000_000);
    assert_eq!(
        TraversalDispatcher::with_strategy(StrategyKind::Legacy, false).progress_interval(),
        2_000_000_000
    );
}

#[test]
fn windows_override_falls_back_when_unsupported() {
    let target = on(HostOs::Linux, dir_node("/tmp/empty", 1, Vec::new()));
    let opts = ScanOptions::default();
    let mut context = TraversalContext::new(opts, None);
    let dispatcher = TraversalDispatcher::with_strategy(StrategyKind::WindowsOptimized, true);

    let size = dispatcher.traverse(&target, &mut context).unwrap();
    assert_eq!(size, 0);
    assert_eq!(context.strategy(), StrategyKind::Legacy);
    assert!(dispatcher.is_demoted_on(HostOs::Linux));
    assert!(!dispatcher.is_demoted_on(HostOs::Windows));
}

#[test]
fn resolution_follows_override_then_filesystem_then_support() {
    let explicit = TraversalDispatcher::with_strategy(StrategyKind::PosixOptimized, true);
    assert_eq!(explicit.resolve_strategy(HostOs::Linux, None), StrategyKind::PosixOptimized);
    assert_eq!(explicit.resolve_strategy(HostOs::MacOs, Some("hfs")), StrategyKind::PosixOptimized);
    assert_eq!(explicit.resolve_strategy(HostOs::Windows, None), StrategyKind::Legacy);
    assert_eq!(explicit.resolve_strategy(HostOs::Other, None), StrategyKind::Legacy);

    let automatic = TraversalDispatcher::with_strategy(StrategyKind::WindowsOptimized, false);
    assert_eq!(automatic.resolve_strategy(HostOs::Linux, None), StrategyKind::PosixOptimized);
    assert_eq!(automatic.resolve_strategy(HostOs::Windows, None), StrategyKind::WindowsOptimized);
    assert_eq!(automatic.resolve_strategy(HostOs::MacOs, Some("apfs")), StrategyKind::PosixOptimized);
    assert_eq!(automatic.resolve_strategy(HostOs::MacOs, Some("msdos")), StrategyKind::Legacy);
    assert_eq!(automatic.resolve_strategy(HostOs::OtherUnix, None), StrategyKind::Legacy);
    assert_eq!(automatic.resolve_strategy(HostOs::Other, None), StrategyKind::Legacy);

    assert_eq!(
        TraversalDispatcher::ensure_supported(StrategyKind::WindowsOptimized, HostOs::MacOs),
        StrategyKind::Legacy
    );
    assert_eq!(
        TraversalDispatcher::ensure_supported(StrategyKind::PosixOptimized, HostOs::OtherUnix),
        StrategyKind::PosixOptimized
    );
    assert_eq!(
        TraversalDispatcher::ensure_supported(StrategyKind::Legacy, HostOs::Other),
        StrategyKind::Legacy
    );
}

#[test]
fn strategies_say_where_they_run() {
    assert!(PosixTraversal::is_supported(HostOs::Linux));
    assert!(PosixTraversal::is_supported(HostOs::MacOs));
    assert!(PosixTraversal::is_supported(HostOs::OtherUnix));
    assert!(!PosixTraversal::is_supported(HostOs::Windows));
    assert!(!PosixTraversal::is_supported(HostOs::Other));
    assert!(WindowsTraversal::is_supported(HostOs::Windows));
    assert!(!WindowsTraversal::is_supported(HostOs::Linux));
    assert_eq!(PosixTraversal.kind(), StrategyKind::PosixOptimized);
    assert_eq!(WindowsTraversal.kind(), StrategyKind::WindowsOptimized);
    let opts = ScanOptions::default();
    assert!(PosixTraversal.is_eligible(&opts, HostOs::Linux));
    assert!(!WindowsTraversal.is_eligible(&opts, HostOs::Linux));
    assert!(is_supported_on(StrategyKind::Legacy, HostOs::Other));
}

#[test]
fn registry_selects_the_first_eligible_strategy() {
    let opts = ScanOptions::default();
    let mut registry = StrategyRegistry::new();
    assert_eq!(registry.select(&opts, HostOs::Linux), None);
    registry.register(StrategyKind::WindowsOptimized);
    assert_eq!(registry.select(&opts, HostOs::Linux), None);
    registry.register(StrategyKind::PosixOptimized);
    registry.register(StrategyKind::Legacy);
    assert_eq!(registry.select(&opts, HostOs::Linux), Some(StrategyKind::PosixOptimized));
    assert_eq!(registry.select(&opts, HostOs::Windows), Some(StrategyKind::WindowsOptimized));
    assert_eq!(registry.select(&opts, HostOs::Other), Some(StrategyKind::Legacy));
    assert_eq!(StrategyRegistry::default().select(&opts, HostOs::Other), None);
}

#[test]
fn strategies_run_through_their_common_interface() {
    let root = dir_node("/s", 1, vec![file("f", 3, 2)]);
    let opts = ScanOptions {
        basis: SizeBasis::Logical,
        ..ScanOptions::default()
    };
    let mut context = TraversalContext::new(opts, None);
    context.set_host(HostOs::Linux);
    let total = PosixTraversal.traverse(&root, &mut context).expect("walk");
    assert_eq!(total, 3);
    let mut context = TraversalContext::new(opts, None);
    context.set_host(HostOs::Linux);
    let total = WindowsTraversal.traverse(&root, &mut context).expect("fallback walk");
    assert_eq!(total, 3);
    let (finish, _, _) = context.into_parts().expect("parts");
    assert_eq!(finish.entries.len(), 2);
    assert_eq!(finish.entry_count, 2);
}

#[test]
fn test_optimized_vs_legacy_parity() {
    let tree = || {
        on(
            HostOs::Linux,
            dir_node(
                "/parity",
                1,
                vec![
                    DirItem::Entry(dir_node("nested", 2, vec![file("c.bin", 4 * 1024, 3)])),
                    file("a.bin", 8 * 1024, 4),
                    file("b.bin", 12 * 1024, 5),
                ],
            ),
        )
    };
    let optimized_opts = ScanOptions {
        basis: SizeBasis::Logical,
        ..Default::default()
    };

    let mut legacy_opts = optimized_opts;
    legacy_opts.strategy_override = Some(StrategyKind::Legacy);

    let optimized = scan_summary(&tree(), &optimized_opts).expect("optimized scan");
    let legacy = scan_summary(&tree(), &legacy_opts).expect("legacy scan");

    let detected_fs = filesystem_kind_for_path(HostOs::Linux, None);
    let preferred_strategy = strategy_for_filesystem(detected_fs);
    let supported_strategy = match preferred_strategy {
        StrategyKind::WindowsOptimized if !WindowsTraversal::is_supported(HostOs::Linux) => {
            StrategyKind::Legacy
        }
        StrategyKind::PosixOptimized if !PosixTraversal::is_supported(HostOs::Linux) => {
            StrategyKind::Legacy
        }
        other => other,
    };
    assert_eq!(optimized.strategy, supported_strategy);
    assert_eq!(optimized.strategy, StrategyKind::PosixOptimized);
    assert_eq!(legacy.strategy, StrategyKind::Legacy);

    let optimized_bytes = root_total(&optimized);
    let legacy_bytes = root_total(&legacy);
    let delta = optimized_bytes.abs_diff(legacy_bytes);
    let tolerance = std::cmp::max(legacy_bytes / 100, 10 * 1024 * 1024);

    assert!(
        delta <= tolerance,
        "optimized ({optimized_bytes}) vs legacy ({legacy_bytes}) delta {delta} exceeds tolerance {tolerance}"
    );
    assert_eq!(legacy_bytes, 24 * 1024);

    let optimized_map: HashMap<_, _> = optimized
        .entries
        .iter()
        .map(|entry| (entry.path.as_str(), entry))
        .collect();
    let legacy_map: HashMap<_, _> = legacy
        .entries
        .iter()
        .map(|entry| (entry.path.as_str(), entry))
        .collect();

    assert_eq!(optimized_map.len(), legacy_map.len(), "entry count mismatch");

    for (path, legacy_entry) in &legacy_map {
        let optimized_entry = optimized_map
            .get(path)
            .unwrap_or_else(|| panic!("Missing path {path} in optimized traversal"));

        let entry_delta = optimized_entry.size_bytes.abs_diff(legacy_entry.size_bytes);
        assert!(
            entry_delta <= tolerance,
            "Entry {path} delta {entry_delta} exceeds tolerance {tolerance}"
        );
        assert_eq!(
            optimized_entry.file_count, legacy_entry.file_count,
            "file count mismatch for {path}"
        );
        assert_eq!(
            optimized_entry.dir_count, legacy_entry.dir_count,
            "dir count mismatch for {path}"
        );
    }

    assert!(optimized.errors.is_empty(), "optimized traversal recorded unexpected errors");
    assert!(legacy.errors.is_empty(), "legacy traversal recorded unexpected errors");
}

fn shape(entries: &[DirectoryEntry]) -> Vec<(String, u32, u32)> {
    entries
        .iter()
        .map(|e| (e.path.clone(), e.file_count, e.dir_count))
        .collect()
}

#[test]
fn parity_on_two_hundred_directories_of_fifty_files() {
    let tree = |host: HostOs| {
        let mut dirs = Vec::new();
        let mut ino = 1u64;
        for i in 0..200 {
            let mut files = Vec::new();
            for j in 0..50 {
                ino += 1;
                files.push(file(&format!("file_{j:03}.bin"), 4 * 1024, ino));
            }
            ino += 1;
            dirs.push(DirItem::Entry(dir_node(&format!("bench_dir_{i:03}"), ino, files)));
        }
        on(host, dir_node("/bench", 1, dirs))
    };
    for basis in [SizeBasis::Logical, SizeBasis::Physical] {
        for policy in [HardlinkPolicy::Dedupe, HardlinkPolicy::Count] {
            let opts = |kind: StrategyKind| ScanOptions {
                basis,
                hardlink_policy: policy,
                strategy_override: Some(kind),
                ..ScanOptions::default()
            };
            let legacy =
                scan_summary(&tree(HostOs::Linux), &opts(StrategyKind::Legacy)).expect("legacy");
            let posix = scan_summary(&tree(HostOs::Linux), &opts(StrategyKind::PosixOptimized))
                .expect("posix");
            let windows = scan_summary(&tree(HostOs::Windows), &opts(StrategyKind::WindowsOptimized))
                .expect("windows");
            assert_eq!(posix.strategy, StrategyKind::PosixOptimized);
            assert_eq!(windows.strategy, StrategyKind::WindowsOptimized);
            assert_eq!(legacy.entry_count, 200 * 50 + 200 + 1);
            assert_eq!(shape(&legacy.entries), shape(&posix.entries));
            assert_eq!(shape(&legacy.entries), shape(&windows.entries));
            for (l, o) in legacy.entries.iter().zip(posix.entries.iter()) {
                let tolerance = std::cmp::max(l.size_bytes / 100, 10 * 1024 * 1024);
                assert!(o.size_bytes.abs_diff(l.size_bytes) <= tolerance);
                assert_eq!(o.size_bytes, l.size_bytes);
            }
            assert_eq!(root_total(&legacy), 200 * 50 * 4096);
        }
    }
}
