//! Unit tests for aggregation and ranking.

use dua::models::DirectoryEntry;
use dua::services::aggregate::{
    consolidate_shards, get_immediate_children, sort_and_limit, AggregateTotals, DirectoryShard,
    EntryKind, SortBy,
};
use rayon::iter::{IntoParallelIterator, ParallelIterator};
use std::convert::TryFrom;

fn entry(path: &str, size_bytes: u64, file_count: u32, dir_count: u32) -> DirectoryEntry {
    DirectoryEntry {
        path: path.to_string(),
        parent_path: None,
        depth: 0,
        size_bytes,
        file_count,
        dir_count,
    }
}

fn paths(entries: &[DirectoryEntry]) -> Vec<&str> {
    entries.iter().map(|e| e.path.as_str()).collect()
}

#[test]
fn test_sort_by_size() {
    let mut entries = vec![
        DirectoryEntry {
            path: "a".to_string(),
            parent_path: None,
            depth: 0,
            size_bytes: 100,
            file_count: 1,
            dir_count: 0,
        },
        DirectoryEntry {
            path: "b".to_string(),
            parent_path: None,
            depth: 0,
            size_bytes: 500,
            file_count: 2,
            dir_count: 0,
        },
        DirectoryEntry {
            path: "c".to_string(),
            parent_path: None,
            depth: 0,
            size_bytes: 200,
            file_count: 3,
            dir_count: 0,
        },
    ];

    entries = sort_and_limit(entries, SortBy::Size, None);

    assert_eq!(entries[0].path, "b");
    assert_eq!(entries[1].path, "c");
    assert_eq!(entries[2].path, "a");
}

#[test]
fn test_top_k_limiting() {
    let entries = vec![
        DirectoryEntry {
            path: "a".to_string(),
            parent_path: None,
            depth: 0,
            size_bytes: 100,
            file_count: 1,
            dir_count: 0,
        },
        DirectoryEntry {
            path: "b".to_string(),
            parent_path: None,
            depth: 0,
            size_bytes: 500,
            file_count: 2,
            dir_count: 0,
        },
        DirectoryEntry {
            path: "c".to_string(),
            parent_path: None,
            depth: 0,
            size_bytes: 200,
            file_count: 3,
            dir_count: 0,
        },
    ];

    let limited = sort_and_limit(entries, SortBy::Size, Some(2));

    assert_eq!(limited.len(), 2);
    assert_eq!(limited[0].path, "b");
    assert_eq!(limited[1].path, "c");
}

#[test]
fn test_sort_by_files() {
    let mut entries = vec![
        DirectoryEntry {
            path: "a".to_string(),
            parent_path: None,
            depth: 0,
            size_bytes: 100,
            file_count: 5,
            dir_count: 0,
        },
        DirectoryEntry {
            path: "b".to_string(),
            parent_path: None,
            depth: 0,
            size_bytes: 500,
            file_count: 2,
            dir_count: 0,
        },
    ];

    entries = sort_and_limit(entries, SortBy::Files, None);

    assert_eq!(entries[0].path, "a");
    assert_eq!(entries[1].path, "b");
}

#[test]
fn test_directory_shard_absorb_and_merge() {
    let mut shard_a = DirectoryShard::with_capacity(2);
    shard_a.absorb_entry(
        DirectoryEntry {
            path: "root/file_a".to_string(),
            parent_path: Some("root".to_string()),
            depth: 1,
            size_bytes: 1024,
            file_count: 0,
            dir_count: 0,
        },
        EntryKind::File,
    );

    let mut shard_b = DirectoryShard::default();
    shard_b.absorb_entry(
        DirectoryEntry {
            path: "root/dir_b".to_string(),
            parent_path: Some("root".to_string()),
            depth: 1,
            size_bytes: 4096,
            file_count: 3,
            dir_count: 1,
        },
        EntryKind::Directory,
    );

    shard_a.merge_in_place(shard_b);
    let totals = *shard_a.totals();

    assert_eq!(totals.size_bytes, 1024 + 4096);
    assert_eq!(totals.files, 1);
    assert_eq!(totals.directories, 1);
}

#[test]
fn test_consolidate_shards() {
    let mut shard_one = DirectoryShard::default();
    shard_one.absorb_entry(
        DirectoryEntry {
            path: "root/a".to_string(),
            parent_path: Some("root".to_string()),
            depth: 1,
            size_bytes: 512,
            file_count: 0,
            dir_count: 0,
        },
        EntryKind::File,
    );

    let mut shard_two = DirectoryShard::default();
    shard_two.absorb_entry(
        DirectoryEntry {
            path: "root/b".to_string(),
            parent_path: Some("root".to_string()),
            depth: 1,
            size_bytes: 2048,
            file_count: 0,
            dir_count: 0,
        },
        EntryKind::File,
    );

    shard_two.absorb_entry(
        DirectoryEntry {
            path: "root/dir".to_string(),
            parent_path: Some("root".to_string()),
            depth: 1,
            size_bytes: 8192,
            file_count: 5,
            dir_count: 1,
        },
        EntryKind::Directory,
    );

    let (entries, totals) = consolidate_shards(vec![shard_one, shard_two]);

    assert_eq!(entries.len(), 3);
    assert_eq!(totals.size_bytes, 512 + 2048 + 8192);
    assert_eq!(totals.files, 2);
    assert_eq!(totals.directories, 1);
}

#[test]
fn test_consolidate_parallel_shards() {
    const SHARDS: usize = 4;
    const FILES_PER_SHARD: usize = 32;
    const SIZE_PER_FILE: u64 = 1024;

    let files_per_shard_u32 = u32::try_from(FILES_PER_SHARD).expect("files per shard fits in u32");
    let files_per_shard_u64 = u64::try_from(FILES_PER_SHARD).expect("files per shard fits in u64");
    let shards_u64 = u64::try_from(SHARDS).expect("shard count fits in u64");

    let shards: Vec<DirectoryShard> = (0..SHARDS)
        .into_par_iter()
        .map(|shard_idx| {
            let mut shard = DirectoryShard::default();

            for file_idx in 0..FILES_PER_SHARD {
                let path = format!("root/dir{shard_idx}/file{file_idx:03}.bin");
                let parent = format!("root/dir{shard_idx}");
                shard.absorb_entry(
                    DirectoryEntry {
                        path,
                        parent_path: Some(parent.clone()),
                        depth: 2,
                        size_bytes: SIZE_PER_FILE,
                        file_count: 0,
                        dir_count: 0,
                    },
                    EntryKind::File,
                );
            }

            shard.absorb_entry(
                DirectoryEntry {
                    path: format!("root/dir{shard_idx}"),
                    parent_path: Some("root".to_string()),
                    depth: 1,
                    size_bytes: SIZE_PER_FILE * files_per_shard_u64,
                    file_count: files_per_shard_u32,
                    dir_count: 0,
                },
                EntryKind::Directory,
            );

            shard
        })
        .collect();

    let (entries, totals) = consolidate_shards(shards);

    let expected_files = SHARDS * FILES_PER_SHARD;
    let expected_entries = expected_files + SHARDS;
    let total_files = files_per_shard_u64 * shards_u64;

    assert_eq!(entries.len(), expected_entries);
    assert_eq!(totals.files, total_files);
    assert_eq!(totals.directories, shards_u64);

    let files_size = SIZE_PER_FILE * total_files;
    let dir_size = SIZE_PER_FILE * total_files;
    let expected_size = files_size + dir_size;
    assert_eq!(totals.size_bytes, expected_size);

    let mut dir_entries = entries
        .iter()
        .filter(|entry| entry.depth == 1)
        .collect::<Vec<_>>();
    assert_eq!(dir_entries.len(), SHARDS);
    dir_entries.sort_by(|a, b| a.path.cmp(&b.path));

    for (idx, entry) in dir_entries.into_iter().enumerate() {
        assert_eq!(entry.path, format!("root/dir{idx}"));
        assert_eq!(
            usize::try_from(entry.file_count).expect("file count fits in usize"),
            FILES_PER_SHARD
        );
        assert_eq!(entry.dir_count, 0);
        assert_eq!(entry.size_bytes, SIZE_PER_FILE * files_per_shard_u64);
    }
}

#[test]
fn sorting_is_stable_and_descending() {
    let entries = vec![
        entry("a", 5, 1, 9),
        entry("b", 7, 1, 9),
        entry("c", 5, 2, 9),
        entry("d", 7, 0, 8),
        entry("e", 5, 1, 9),
    ];
    let by_size = sort_and_limit(entries.clone(), SortBy::Size, None);
    assert_eq!(paths(&by_size), vec!["b", "d", "a", "c", "e"]);
    let by_files = sort_and_limit(entries.clone(), SortBy::Files, None);
    assert_eq!(paths(&by_files), vec!["c", "a", "b", "e", "d"]);
    let by_dirs = sort_and_limit(entries.clone(), SortBy::Dirs, None);
    assert_eq!(paths(&by_dirs), vec!["a", "b", "c", "e", "d"]);
    let again = sort_and_limit(by_size.clone(), SortBy::Size, None);
    assert_eq!(paths(&again), paths(&by_size));
}

#[test]
fn sorting_holds_every_entry_whole() {
    let entries = vec![entry("x", 1, 2, 3), entry("y", 3, 2, 1)];
    let sorted = sort_and_limit(entries, SortBy::Size, None);
    assert_eq!(sorted.len(), 2);
    assert_eq!(sorted[0].path, "y");
    assert_eq!(sorted[0].size_bytes, 3);
    assert_eq!(sorted[0].file_count, 2);
    assert_eq!(sorted[0].dir_count, 1);
    assert_eq!(sorted[1].path, "x");
    assert_eq!(sorted[1].size_bytes, 1);
    assert_eq!(sorted[1].dir_count, 3);
}

#[test]
fn limits_at_the_edges() {
    let entries = vec![entry("a", 1, 0, 0), entry("b", 2, 0, 0), entry("c", 3, 0, 0)];
    assert_eq!(sort_and_limit(entries.clone(), SortBy::Size, Some(0)).len(), 0);
    assert_eq!(paths(&sort_and_limit(entries.clone(), SortBy::Size, Some(1))), vec!["c"]);
    assert_eq!(
        paths(&sort_and_limit(entries.clone(), SortBy::Size, Some(3))),
        vec!["c", "b", "a"]
    );
    assert_eq!(
        paths(&sort_and_limit(entries.clone(), SortBy::Size, Some(usize::MAX))),
        vec!["c", "b", "a"]
    );
    assert_eq!(sort_and_limit(Vec::new(), SortBy::Size, Some(5)).len(), 0);
    assert_eq!(sort_and_limit(Vec::new(), SortBy::Dirs, None).len(), 0);
}

#[test]
fn sorting_many_entries() {
    let mut entries = Vec::new();
    for i in 0..1000u64 {
        entries.push(entry(&format!("p{i}"), (i * 7919) % 101, 0, 0));
    }
    let sorted = sort_and_limit(entries.clone(), SortBy::Size, None);
    assert_eq!(sorted.len(), 1000);
    let mut expected = entries.clone();
    expected.sort_by(|a, b| b.size_bytes.cmp(&a.size_bytes));
    assert_eq!(paths(&sorted), paths(&expected));
}

fn child(path: &str, parent: Option<&str>, depth: u16) -> DirectoryEntry {
    DirectoryEntry {
        path: path.to_string(),
        parent_path: parent.map(|p| p.to_string()),
        depth,
        size_bytes: 1,
        file_count: 0,
        dir_count: 0,
    }
}

#[test]
fn immediate_children_match_parent_and_depth() {
    let all = vec![
        child("/r", None, 0),
        child("/r/a", Some("/r"), 1),
        child("/r/a/x", Some("/r/a"), 2),
        child("/r/b", Some("/r"), 1),
        child("/r/odd", Some("/r"), 2),
        child("/q/c", Some("/q"), 1),
        child("/r/none", None, 1),
    ];
    assert_eq!(paths(&get_immediate_children(&all, "/r", 0)), vec!["/r/a", "/r/b"]);
    assert_eq!(paths(&get_immediate_children(&all, "/r/a", 1)), vec!["/r/a/x"]);
    assert_eq!(paths(&get_immediate_children(&all, "/r", 1)), vec!["/r/odd"]);
    assert_eq!(get_immediate_children(&all, "/nowhere", 0).len(), 0);
    assert_eq!(get_immediate_children(&all, "/r", u16::MAX).len(), 0);
    assert_eq!(get_immediate_children(&[], "/r", 0).len(), 0);
}

#[test]
fn totals_record_and_merge() {
    let mut totals = AggregateTotals::default();
    assert_eq!(totals, AggregateTotals { size_bytes: 0, files: 0, directories: 0 });
    totals.record_file(10);
    totals.record_file(5);
    totals.record_directory(100);
    assert_eq!(totals, AggregateTotals { size_bytes: 115, files: 2, directories: 1 });
    let other = AggregateTotals { size_bytes: 1, files: 2, directories: 3 };
    totals.merge(&other);
    assert_eq!(totals, AggregateTotals { size_bytes: 116, files: 4, directories: 4 });
}

#[test]
fn totals_stop_at_the_largest_value() {
    let mut totals = AggregateTotals { size_bytes: u64::MAX - 1, files: u64::MAX, directories: 0 };
    totals.record_file(5);
    assert_eq!(totals.size_bytes, u64::MAX);
    assert_eq!(totals.files, u64::MAX);
    let other = AggregateTotals { size_bytes: 1, files: 1, directories: u64::MAX };
    totals.merge(&other);
    assert_eq!(totals, AggregateTotals { size_bytes: u64::MAX, files: u64::MAX, directories: u64::MAX });
}

#[test]
fn shard_keeps_the_last_entry_of_a_path() {
    let mut shard = DirectoryShard::default();
    shard.absorb_entry(entry("p", 1, 0, 0), EntryKind::File);
    shard.absorb_entry(entry("q", 2, 0, 0), EntryKind::File);
    shard.absorb_entry(entry("p", 30, 0, 0), EntryKind::Directory);
    let (entries, totals) = shard.into_parts();
    assert_eq!(entries.len(), 2);
    let p = entries.iter().find(|e| e.path == "p").expect("p is kept");
    assert_eq!(p.size_bytes, 30);
    assert_eq!(totals, AggregateTotals { size_bytes: 33, files: 2, directories: 1 });
}

#[test]
fn shard_extend_and_merge_prefer_the_newcomer() {
    let mut left = DirectoryShard::default();
    left.extend(vec![
        (entry("a", 1, 0, 0), EntryKind::File),
        (entry("b", 2, 0, 0), EntryKind::File),
        (entry("a", 3, 0, 0), EntryKind::File),
    ]);
    assert_eq!(*left.totals(), AggregateTotals { size_bytes: 6, files: 3, directories: 0 });
    let mut right = DirectoryShard::default();
    right.extend(vec![(entry("b", 20, 0, 0), EntryKind::Directory)]);
    left.merge_in_place(right);
    let totals: AggregateTotals = AggregateTotals::from(DirectoryShard::default());
    assert_eq!(totals, AggregateTotals::default());
    let (entries, totals) = left.into_parts();
    assert_eq!(totals, AggregateTotals { size_bytes: 26, files: 3, directories: 1 });
    assert_eq!(entries.len(), 2);
    assert_eq!(entries.iter().find(|e| e.path == "a").unwrap().size_bytes, 3);
    assert_eq!(entries.iter().find(|e| e.path == "b").unwrap().size_bytes, 20);
}

#[test]
fn consolidating_nothing_gives_nothing() {
    let (entries, totals) = consolidate_shards(Vec::new());
    assert!(entries.is_empty());
    assert_eq!(totals, AggregateTotals::default());
}
