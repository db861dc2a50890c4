//! What the commands decide, and the small helpers under them.

use dua::cli::args::{ScanArgs, ViewArgs};
use dua::cli::commands::{
    error_exit_code, find_entry, parse_basis, parse_sort, scan_exit_code, scan_options,
    secs_to_nanos, select_view, ViewFault,
};
use dua::cli::output::{
    get_children_from_all, preview_lines, total_size, PreviewLine, PreviewStrategy,
    SimplePreviewStrategy,
};
use dua::models::{DirectoryEntry, SnapshotMeta};
use dua::services::aggregate::SortBy;
use dua::services::size::{
    logical_size, physical_size_from_blocks, physical_size_from_metadata,
    physical_size_from_path,
};
use dua::services::traverse::tree::{FileMeta, NodeKind};
use dua::text::{
    chars_of, joined, joined3, contains_word, lowercase_chars, parse_u64, starts_with,
    str_before, str_eq, string_of, u64_to_decimal, uppercase_chars,
};
use dua::{Error, HardlinkPolicy, ScanOptions, SizeBasis, StrategyKind};

#[test]
fn default_options() {
    let opts = ScanOptions::default();
    assert_eq!(opts.basis, SizeBasis::Physical);
    assert_eq!(opts.max_depth, None);
    assert_eq!(opts.hardlink_policy, HardlinkPolicy::Dedupe);
    assert!(!opts.follow_symlinks);
    assert!(!opts.cross_filesystem);
    assert_eq!(opts.strategy_override, None);
    assert_eq!(opts.progress_interval_ns, 2_000_000_000);
    assert_eq!(opts.progress_byte_trigger, 1_000_000);
    assert_eq!(SizeBasis::Physical.as_str(), "physical");
    assert_eq!(SizeBasis::Logical.as_str(), "logical");
    assert_eq!(HardlinkPolicy::Dedupe.as_str(), "dedupe");
    assert_eq!(HardlinkPolicy::Count.as_str(), "count");
}

#[test]
fn options_follow_the_arguments() {
    let args = ScanArgs::default();
    let opts = scan_options(&args).expect("defaults are fine");
    assert_eq!(opts.basis, SizeBasis::Physical);
    assert_eq!(opts.strategy_override, None);
    assert_eq!(opts.progress_interval_ns, 2_000_000_000);
    assert_eq!(opts.progress_byte_trigger, 1_000_000);

    let args = ScanArgs {
        basis: "logical".to_string(),
        max_depth: Some(4),
        legacy_traversal: true,
        progress_interval_secs: Some(3),
        ..ScanArgs::default()
    };
    let opts = scan_options(&args).expect("fine");
    assert_eq!(opts.basis, SizeBasis::Logical);
    assert_eq!(opts.max_depth, Some(4));
    assert_eq!(opts.strategy_override, Some(StrategyKind::Legacy));
    assert_eq!(opts.progress_interval_ns, 3_000_000_000);
    assert_eq!(opts.progress_byte_trigger, u64::MAX);

    let args = ScanArgs {
        legacy_traversal: true,
        strategy_override: Some("POSIX".to_string()),
        progress_interval_secs: Some(u64::MAX),
        ..ScanArgs::default()
    };
    let opts = scan_options(&args).expect("fine");
    assert_eq!(opts.strategy_override, Some(StrategyKind::PosixOptimized));
    assert_eq!(opts.progress_interval_ns, u64::MAX);
}

#[test]
fn options_reject_unknown_labels() {
    let args = ScanArgs {
        basis: "Physical".to_string(),
        ..ScanArgs::default()
    };
    assert_eq!(
        scan_options(&args).err().as_deref(),
        Some("Invalid basis: Physical. Use 'physical' or 'logical'")
    );
    let args = ScanArgs {
        strategy_override: Some("turbo".to_string()),
        legacy_traversal: true,
        ..ScanArgs::default()
    };
    assert_eq!(scan_options(&args).err().as_deref(), Some("unknown strategy 'turbo'"));
    assert_eq!(
        "turbo".parse::<StrategyKind>().err().as_deref(),
        Some("unknown strategy 'turbo'")
    );
    assert_eq!("ntfs".parse::<StrategyKind>(), Ok(StrategyKind::WindowsOptimized));
}

#[test]
fn labels_are_read_exactly() {
    assert_eq!(parse_basis("physical"), Some(SizeBasis::Physical));
    assert_eq!(parse_basis("logical"), Some(SizeBasis::Logical));
    assert_eq!(parse_basis(""), None);
    assert_eq!(parse_basis("logical "), None);
    assert_eq!(parse_sort("size"), Some(SortBy::Size));
    assert_eq!(parse_sort("files"), Some(SortBy::Files));
    assert_eq!(parse_sort("dirs"), Some(SortBy::Dirs));
    assert_eq!(parse_sort("Size"), None);
    assert_eq!(secs_to_nanos(0), 0);
    assert_eq!(secs_to_nanos(2), 2_000_000_000);
    assert_eq!(secs_to_nanos(18_446_744_073), 18_446_744_073_000_000_000);
    assert_eq!(secs_to_nanos(18_446_744_074), u64::MAX);
}

#[test]
fn exit_codes() {
    assert_eq!(scan_exit_code(0), 0);
    assert_eq!(scan_exit_code(1), 3);
    assert_eq!(scan_exit_code(usize::MAX), 3);
    assert_eq!(error_exit_code(&Error::InvalidInput("x".to_string())), 2);
    assert_eq!(error_exit_code(&Error::PartialFailure { completed: 1, failed: 1 }), 3);
    assert_eq!(error_exit_code(&Error::System("x".to_string())), 4);
    assert_eq!(error_exit_code(&Error::Io(std::io::Error::other("x"))), 4);
}

fn entry(path: &str, parent: Option<&str>, depth: u16, size: u64, files: u32) -> DirectoryEntry {
    DirectoryEntry {
        path: path.to_string(),
        parent_path: parent.map(|p| p.to_string()),
        depth,
        size_bytes: size,
        file_count: files,
        dir_count: 0,
    }
}

fn snapshot() -> (SnapshotMeta, Vec<DirectoryEntry>) {
    let meta = SnapshotMeta {
        scan_root: "/r".to_string(),
        started_at: String::new(),
        finished_at: String::new(),
        size_basis: "logical".to_string(),
        hardlink_policy: "dedupe".to_string(),
        excludes: Vec::new(),
        strategy: "posix".to_string(),
    };
    let entries = vec![
        entry("/r", None, 0, 100, 2),
        entry("/r/a", Some("/r"), 1, 10, 7),
        entry("/r/b", Some("/r"), 1, 60, 1),
        entry("/r/b/x", Some("/r/b"), 2, 35, 0),
        entry("/r/b/y", Some("/r/b"), 2, 25, 0),
        entry("/r/c", Some("/r"), 1, 30, 3),
    ];
    (meta, entries)
}

fn view(path: Option<&str>, top: usize, sort: &str) -> ViewArgs {
    ViewArgs {
        from_snapshot: "s".to_string(),
        path: path.map(|p| p.to_string()),
        top,
        sort: sort.to_string(),
        json: false,
    }
}

fn paths(entries: &[DirectoryEntry]) -> Vec<&str> {
    entries.iter().map(|e| e.path.as_str()).collect()
}

#[test]
fn view_shows_the_children_of_the_root_ranked_and_limited() {
    let (meta, entries) = snapshot();
    let selection = select_view(&meta, &entries, &view(None, 10, "size")).expect("fine");
    assert_eq!(selection.root, "/r");
    assert_eq!(selection.strategy, StrategyKind::PosixOptimized);
    assert_eq!(paths(&selection.entries), vec!["/r/b", "/r/c", "/r/a"]);
    let selection = select_view(&meta, &entries, &view(None, 2, "files")).expect("fine");
    assert_eq!(paths(&selection.entries), vec!["/r/a", "/r/c"]);
    let selection = select_view(&meta, &entries, &view(None, 0, "dirs")).expect("fine");
    assert!(selection.entries.is_empty());
}

#[test]
fn view_drills_into_a_path_of_the_snapshot() {
    let (mut meta, entries) = snapshot();
    meta.strategy = "quantum".to_string();
    let selection = select_view(&meta, &entries, &view(Some("/r/b"), 10, "size")).expect("fine");
    assert_eq!(selection.root, "/r/b");
    assert_eq!(selection.strategy, StrategyKind::Legacy);
    assert_eq!(paths(&selection.entries), vec!["/r/b/x", "/r/b/y"]);
    let selection = select_view(&meta, &entries, &view(Some("/r/a"), 10, "size")).expect("fine");
    assert!(selection.entries.is_empty());
}

#[test]
fn view_faults() {
    let (meta, entries) = snapshot();
    match select_view(&meta, &entries, &view(Some("/nowhere"), 10, "size")) {
        Err(fault) => {
            assert!(matches!(fault, ViewFault::PathNotFound(_)));
            assert_eq!(fault.message(), "Path '/nowhere' not found in snapshot");
        }
        Ok(_) => panic!("the path is not in the snapshot"),
    }
    match select_view(&meta, &entries, &view(Some("/nowhere"), 10, "age")) {
        Err(fault) => {
            assert!(matches!(fault, ViewFault::InvalidSort(_)));
            assert_eq!(fault.message(), "Invalid sort: age. Use 'size'");
        }
        Ok(_) => panic!("the sort field is unknown"),
    }
    assert_eq!(find_entry(&entries, "/r/b/y"), Some(4));
    assert_eq!(find_entry(&entries, "/r/"), None);
    let twice = vec![entry("/d", None, 3, 0, 0), entry("/d", None, 5, 0, 0)];
    assert_eq!(find_entry(&twice, "/d"), Some(0));
}

#[test]
fn children_come_largest_first() {
    let (_, entries) = snapshot();
    assert_eq!(paths(&get_children_from_all(&entries, "/r", 0)), vec!["/r/b", "/r/c", "/r/a"]);
    assert_eq!(total_size(&entries), 260);
    assert_eq!(total_size(&[]), 0);
    let huge = vec![entry("a", None, 0, u64::MAX, 0), entry("b", None, 0, 1, 0)];
    assert_eq!(total_size(&huge), u64::MAX);
}

fn lines(found: &[PreviewLine]) -> Vec<(&str, usize)> {
    found.iter().map(|l| (l.entry.path.as_str(), l.indent)).collect()
}

#[test]
fn simple_preview_expands_the_top_entries() {
    let (_, entries) = snapshot();
    let strategy = SimplePreviewStrategy { top_n: 1 };
    assert!(strategy.should_preview(&entries[0], 0, 0, 1, 0));
    assert!(!strategy.should_preview(&entries[0], 0, 0, 2, 0));
    assert_eq!(strategy.max_preview_depth(), 3);
    assert_eq!(strategy.max_children_to_show(), 3);

    let top = vec![entries[0].clone()];
    let mut found = Vec::new();
    preview_lines(&top, &entries, &strategy, 100, 100, 0, 0, &mut found);
    assert_eq!(
        lines(&found),
        vec![("/r", 0), ("/r/b", 1), ("/r/b/x", 2), ("/r/b/y", 2), ("/r/c", 1), ("/r/a", 1)]
    );

    let mut found = Vec::new();
    preview_lines(&top, &[], &strategy, 100, 100, 0, 0, &mut found);
    assert_eq!(lines(&found), vec![("/r", 0)]);

    let none = SimplePreviewStrategy { top_n: 0 };
    let mut found = Vec::new();
    preview_lines(&entries[1..3], &entries, &none, 100, 100, 4, 0, &mut found);
    assert_eq!(lines(&found), vec![("/r/a", 4), ("/r/b", 4)]);
}

struct Eager;

impl PreviewStrategy for Eager {
    fn should_preview(&self, _: &DirectoryEntry, _: u64, _: u64, _: usize, _: u16) -> bool {
        true
    }

    fn max_preview_depth(&self) -> u16 {
        1
    }

    fn max_children_to_show(&self) -> usize {
        2
    }
}

#[test]
fn preview_respects_depth_and_width_of_the_strategy() {
    let (_, entries) = snapshot();
    let top = vec![entries[0].clone()];
    let mut found = Vec::new();
    preview_lines(&top, &entries, &Eager, 100, 100, 0, 0, &mut found);
    assert_eq!(lines(&found), vec![("/r", 0), ("/r/b", 1), ("/r/c", 1)]);
}

#[test]
fn sizes_from_metadata() {
    let m = FileMeta {
        kind: NodeKind::File,
        logical_len: 10,
        physical_len: Some(4096),
        device: 0,
        file_id: None,
    };
    assert_eq!(logical_size(&m), 10);
    assert_eq!(physical_size_from_metadata(&m), 4096);
    let m = FileMeta { physical_len: None, ..m };
    assert_eq!(physical_size_from_metadata(&m), 10);
    assert_eq!(physical_size_from_blocks(0), 0);
    assert_eq!(physical_size_from_blocks(8), 4096);
    assert_eq!(physical_size_from_blocks(u64::MAX / 512), (u64::MAX / 512) * 512);
    assert_eq!(physical_size_from_blocks(u64::MAX / 512 + 1), u64::MAX);
    assert_eq!(physical_size_from_path(5, 0, 99), 5);
    assert_eq!(physical_size_from_path(0, 1, 99), 1 << 32);
    assert_eq!(physical_size_from_path(0xFFFF_FFFE, 0xFFFF_FFFF, 99), u64::MAX - 1);
    assert_eq!(physical_size_from_path(0xFFFF_FFFF, 0, 99), 99);
    assert_eq!(physical_size_from_path(0xFFFF_FFFF, 7, 0), 0);
}

#[test]
fn text_helpers() {
    assert_eq!(chars_of("héllo"), vec!['h', 'é', 'l', 'l', 'o']);
    assert_eq!(string_of(&vec!['a', '→', 'b']), "a→b");
    assert_eq!(string_of(&Vec::new()), "");
    assert!(str_eq("", ""));
    assert!(str_eq("été", "été"));
    assert!(!str_eq("a", "b"));
    assert!(!str_eq("a", "ab"));
    assert_eq!(joined("ab", "cd"), "abcd");
    assert_eq!(joined3("a", "", "c"), "ac");
    assert_eq!(lowercase_chars("AbC-É1Z@["), chars_of("abc-É1z@["));
    assert_eq!(uppercase_chars("aBc-é1z`{"), chars_of("ABC-é1Z`{"));
    assert!(starts_with("--flag", "--"));
    assert!(starts_with("--", "--"));
    assert!(starts_with("x", ""));
    assert!(!starts_with("-", "--"));
    assert!(!starts_with("a--", "--"));
    assert!(contains_word(&chars_of("xxAPFSyy"), "APFS"));
    assert!(contains_word(&chars_of("APFS"), "APFS"));
    assert!(contains_word(&chars_of("x"), ""));
    assert!(contains_word(&chars_of(""), ""));
    assert!(!contains_word(&chars_of("APF"), "APFS"));
    assert!(!contains_word(&chars_of("AP-FS"), "APFS"));
}

#[test]
fn numbers_in_decimal() {
    assert_eq!(u64_to_decimal(0), "0");
    assert_eq!(u64_to_decimal(7), "7");
    assert_eq!(u64_to_decimal(10), "10");
    assert_eq!(u64_to_decimal(1_234_567_890), "1234567890");
    assert_eq!(u64_to_decimal(u64::MAX), "18446744073709551615");
    assert_eq!(parse_u64("0"), Some(0));
    assert_eq!(parse_u64("007"), Some(7));
    assert_eq!(parse_u64("+42"), Some(42));
    assert_eq!(parse_u64("18446744073709551615"), Some(u64::MAX));
    assert_eq!(parse_u64("18446744073709551616"), None);
    assert_eq!(parse_u64("99999999999999999999999"), None);
    for bad in ["", "+", "-1", "++1", "1+", " 1", "1 ", "0x10", "１", "1e3", "1.0", "+-1"] {
        assert_eq!(parse_u64(bad), None, "for {bad:?}");
        assert!(bad.parse::<u64>().is_err(), "for {bad:?}");
    }
    for n in [0u64, 1, 9, 10, 99, 100, 65_535, 65_536, u64::MAX] {
        assert_eq!(parse_u64(&u64_to_decimal(n)), Some(n));
    }
}

#[test]
fn strings_are_ordered_by_their_bytes() {
    let words = ["", "a", "A", "ab", "b", "é", "z", "\u{ffff}", "\u{10000}", "a\u{0}", "a/"];
    for x in words {
        for y in words {
            assert_eq!(str_before(x, y), x < y, "for {x:?} and {y:?}");
        }
    }
}
