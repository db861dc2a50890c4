//! A snapshot written and read back: as record batches, and row by row.

use arrow_array::{ArrayRef, RecordBatch, StringArray};
use dua::io::batch::{Batch, CellFault, ColumnFault};
use dua::io::rows::{
    decode, row_groups, rows_of_entries, rows_of_errors, rows_of_metadata, ColumnKind,
    SnapshotFault, SnapshotReader, SnapshotRow,
};
use dua::io::snapshot::{read_snapshot, snapshot_schema, write_snapshot, ReadFault};
use dua::models::{DirectoryEntry, ErrorItem, SnapshotMeta};
use std::sync::Arc;

fn blank() -> SnapshotRow {
    SnapshotRow {
        path: None,
        parent_path: None,
        depth: None,
        size_bytes: None,
        file_count: None,
        dir_count: None,
        meta_scan_root: None,
        meta_started_at: None,
        meta_finished_at: None,
        meta_size_basis: None,
        meta_hardlink_policy: None,
        meta_strategy: None,
        error_path: None,
        error_code: None,
        error_message: None,
    }
}

fn flat(groups: Vec<Vec<SnapshotRow>>) -> Vec<SnapshotRow> {
    groups.into_iter().flatten().collect()
}

fn some(text: &str) -> Option<String> {
    Some(text.to_string())
}

#[test]
fn test_snapshot_roundtrip() {
    let meta = SnapshotMeta {
        scan_root: "/test/root".to_string(),
        started_at: "2025-10-30T00:00:00Z".to_string(),
        finished_at: "2025-10-30T00:01:00Z".to_string(),
        size_basis: "physical".to_string(),
        hardlink_policy: "dedupe".to_string(),
        excludes: vec![],
        strategy: "legacy".to_string(),
    };

    let entries = vec![
        DirectoryEntry {
            path: "/test/root/dir1".to_string(),
            parent_path: Some("/test/root".to_string()),
            depth: 1,
            size_bytes: 1024,
            file_count: 5,
            dir_count: 2,
        },
        DirectoryEntry {
            path: "/test/root/dir2".to_string(),
            parent_path: Some("/test/root".to_string()),
            depth: 1,
            size_bytes: 2048,
            file_count: 10,
            dir_count: 3,
        },
    ];

    let errors = vec![ErrorItem {
        path: "/test/root/forbidden".to_string(),
        code: "EACCES".to_string(),
        message: "Permission denied".to_string(),
    }];

    let batches = write_snapshot(&meta, &entries, &errors).expect("batches");
    assert_eq!(batches.len(), 3);

    let read_result = read_snapshot(&batches);
    assert!(
        read_result.is_ok(),
        "Failed to read snapshot: {:?}",
        read_result.err()
    );

    let (read_meta, read_entries, read_errors) = read_result.unwrap();

    assert_eq!(read_meta.scan_root, meta.scan_root);
    assert_eq!(read_meta.size_basis, meta.size_basis);
    assert_eq!(read_meta.hardlink_policy, meta.hardlink_policy);
    assert_eq!(read_meta.started_at, meta.started_at);
    assert_eq!(read_meta.finished_at, meta.finished_at);
    assert_eq!(read_meta.strategy, meta.strategy);

    assert_eq!(read_entries.len(), entries.len());
    for (orig, read) in entries.iter().zip(read_entries.iter()) {
        assert_eq!(read.path, orig.path);
        assert_eq!(read.parent_path, orig.parent_path);
        assert_eq!(read.depth, orig.depth);
        assert_eq!(read.size_bytes, orig.size_bytes);
        assert_eq!(read.file_count, orig.file_count);
        assert_eq!(read.dir_count, orig.dir_count);
    }

    assert_eq!(read_errors.len(), errors.len());
    assert_eq!(read_errors[0].path, errors[0].path);
    assert_eq!(read_errors[0].code, errors[0].code);
    assert_eq!(read_errors[0].message, errors[0].message);
}

#[test]
fn test_empty_snapshot() {
    let meta = SnapshotMeta {
        scan_root: "/empty".to_string(),
        started_at: "2025-10-30T00:00:00Z".to_string(),
        finished_at: "2025-10-30T00:00:01Z".to_string(),
        size_basis: "logical".to_string(),
        hardlink_policy: "count".to_string(),
        excludes: vec![],
        strategy: "legacy".to_string(),
    };

    let batches = write_snapshot(&meta, &[], &[]).expect("batches");
    assert_eq!(batches.len(), 1);

    let read_result = read_snapshot(&batches);
    assert!(read_result.is_ok());

    let (_, entries, errors) = read_result.unwrap();
    assert_eq!(entries.len(), 0);
    assert_eq!(errors.len(), 0);
}

#[test]
fn test_snapshot_json_serialization() {
    let meta = SnapshotMeta {
        scan_root: "/test".to_string(),
        started_at: "2025-10-30T00:00:00Z".to_string(),
        finished_at: "2025-10-30T00:01:00Z".to_string(),
        size_basis: "physical".to_string(),
        hardlink_policy: "dedupe".to_string(),
        excludes: vec![],
        strategy: "posix".to_string(),
    };

    let entries = vec![DirectoryEntry {
        path: "/test/dir".to_string(),
        parent_path: Some("/test".to_string()),
        depth: 1,
        size_bytes: 5000,
        file_count: 3,
        dir_count: 1,
    }];

    let batches = write_snapshot(&meta, &entries, &[]).expect("batches");
    let (meta_out, entries, _errors) = read_snapshot(&batches).unwrap();
    assert_eq!(meta_out.strategy, "posix");
    assert_eq!(entries.len(), 1);
    assert_eq!(entries[0].size_bytes, 5000);
    assert_eq!(entries[0].parent_path.as_deref(), Some("/test"));
}

#[test]
fn test_corrupt_snapshot_file() {
    let text: ArrayRef = Arc::new(StringArray::from(vec![Some(
        "This is not a valid Parquet file!",
    )]));
    let inner = RecordBatch::try_from_iter(vec![("garbage", text)]).expect("a batch");
    let result = read_snapshot(&[Batch { inner }]);
    assert!(result.is_err());
    assert_eq!(
        result.err(),
        Some(ReadFault::Column(ColumnFault {
            column: 0,
            fault: CellFault::MissingColumn
        }))
    );

    let mut row = blank();
    row.parent_path = some("This is not a valid Parquet file!");
    assert_eq!(decode(&[row]).err(), Some(SnapshotFault::NoMetadata));
}

#[test]
fn test_invalid_snapshot_file() {
    let result = read_snapshot(&[]);
    assert!(result.is_err());
    assert_eq!(
        result.err().map(|f| f.message()),
        Some("No metadata found".to_string())
    );
    assert_eq!(decode(&[]).err().map(|f| f.message()), Some("No metadata found"));
}

#[test]
fn schema_has_fifteen_nullable_columns_in_order() {
    let schema = snapshot_schema();
    let names: Vec<&str> = schema.iter().map(|c| c.name).collect();
    assert_eq!(
        names,
        vec![
            "path",
            "parent_path",
            "depth",
            "size_bytes",
            "file_count",
            "dir_count",
            "meta_scan_root",
            "meta_started_at",
            "meta_finished_at",
            "meta_size_basis",
            "meta_hardlink_policy",
            "meta_strategy",
            "error_path",
            "error_code",
            "error_message"
        ]
    );
    assert!(schema.iter().all(|c| c.nullable));
    let kinds: Vec<ColumnKind> = schema.iter().map(|c| c.kind).collect();
    assert_eq!(kinds[2], ColumnKind::UInt16);
    assert_eq!(kinds[3], ColumnKind::UInt64);
    assert_eq!(kinds[4], ColumnKind::UInt32);
    assert_eq!(kinds[5], ColumnKind::UInt32);
    for (i, kind) in kinds.iter().enumerate() {
        if !(2..=5).contains(&i) {
            assert_eq!(*kind, ColumnKind::Utf8);
        }
    }
}

#[test]
fn each_row_fills_one_cluster() {
    let entry = DirectoryEntry {
        path: "/r".to_string(),
        parent_path: None,
        depth: 0,
        size_bytes: 9,
        file_count: 1,
        dir_count: 2,
    };
    let rows = rows_of_entries(&[entry]);
    assert_eq!(rows.len(), 1);
    let row = &rows[0];
    assert_eq!(row.path.as_deref(), Some("/r"));
    assert_eq!(row.parent_path, None);
    assert_eq!((row.depth, row.size_bytes, row.file_count, row.dir_count), (Some(0), Some(9), Some(1), Some(2)));
    assert!(row.meta_scan_root.is_none() && row.meta_started_at.is_none());
    assert!(row.meta_finished_at.is_none() && row.meta_size_basis.is_none());
    assert!(row.meta_hardlink_policy.is_none() && row.meta_strategy.is_none());
    assert!(row.error_path.is_none() && row.error_code.is_none() && row.error_message.is_none());

    let error = ErrorItem {
        path: "/x".to_string(),
        code: "ENOENT".to_string(),
        message: "gone".to_string(),
    };
    let rows = rows_of_errors(&[error]);
    let row = &rows[0];
    assert_eq!(row.error_path.as_deref(), Some("/x"));
    assert_eq!(row.error_code.as_deref(), Some("ENOENT"));
    assert_eq!(row.error_message.as_deref(), Some("gone"));
    assert!(row.path.is_none() && row.depth.is_none() && row.meta_scan_root.is_none());

    let meta = SnapshotMeta {
        scan_root: "/r".to_string(),
        started_at: "a".to_string(),
        finished_at: "b".to_string(),
        size_basis: "c".to_string(),
        hardlink_policy: "d".to_string(),
        excludes: vec!["never written".to_string()],
        strategy: "e".to_string(),
    };
    let rows = rows_of_metadata(&meta);
    assert_eq!(rows.len(), 1);
    let row = &rows[0];
    assert_eq!(row.meta_scan_root.as_deref(), Some("/r"));
    assert_eq!(row.meta_started_at.as_deref(), Some("a"));
    assert_eq!(row.meta_finished_at.as_deref(), Some("b"));
    assert_eq!(row.meta_size_basis.as_deref(), Some("c"));
    assert_eq!(row.meta_hardlink_policy.as_deref(), Some("d"));
    assert_eq!(row.meta_strategy.as_deref(), Some("e"));
    assert!(row.path.is_none() && row.error_path.is_none());
    assert!(rows_of_entries(&[]).is_empty());
    assert!(rows_of_errors(&[]).is_empty());
}

fn meta_row() -> SnapshotRow {
    let mut row = blank();
    row.meta_scan_root = some("/r");
    row.meta_started_at = some("s");
    row.meta_finished_at = some("f");
    row.meta_size_basis = some("logical");
    row.meta_hardlink_policy = some("count");
    row
}

fn entry_row(path: &str) -> SnapshotRow {
    let mut row = blank();
    row.path = some(path);
    row.depth = Some(1);
    row.size_bytes = Some(2);
    row.file_count = Some(3);
    row.dir_count = Some(4);
    row
}

fn error_row(path: &str) -> SnapshotRow {
    let mut row = blank();
    row.error_path = some(path);
    row.error_code = some("IO");
    row.error_message = some("m");
    row
}

#[test]
fn rows_are_told_by_their_cluster_in_any_order() {
    let rows = vec![
        error_row("/e1"),
        meta_row(),
        entry_row("/a"),
        blank(),
        error_row("/e2"),
        entry_row(""),
        entry_row("/b"),
    ];
    let (meta, entries, errors) = decode(&rows).expect("readable");
    assert_eq!(meta.scan_root, "/r");
    assert_eq!(meta.strategy, "legacy");
    assert!(meta.excludes.is_empty());
    let paths: Vec<&str> = entries.iter().map(|e| e.path.as_str()).collect();
    assert_eq!(paths, vec!["/a", "/b"]);
    assert_eq!(
        (entries[0].depth, entries[0].size_bytes, entries[0].file_count, entries[0].dir_count),
        (1, 2, 3, 4)
    );
    let failed: Vec<&str> = errors.iter().map(|e| e.path.as_str()).collect();
    assert_eq!(failed, vec!["/e1", "/e2"]);
}

#[test]
fn only_the_first_metadata_row_counts() {
    let mut second = meta_row();
    second.meta_scan_root = some("/other");
    second.meta_started_at = None;
    let rows = vec![meta_row(), second];
    let (meta, entries, errors) = decode(&rows).expect("readable");
    assert_eq!(meta.scan_root, "/r");
    assert!(entries.is_empty() && errors.is_empty());
}

#[test]
fn a_row_may_hold_metadata_and_a_record() {
    let mut both = meta_row();
    both.path = some("/with-meta");
    both.depth = Some(0);
    both.size_bytes = Some(0);
    both.file_count = Some(0);
    both.dir_count = Some(0);
    let (meta, entries, _) = decode(&[both]).expect("readable");
    assert_eq!(meta.scan_root, "/r");
    assert_eq!(entries.len(), 1);
    assert_eq!(entries[0].path, "/with-meta");
}

#[test]
fn every_missing_field_has_its_fault() {
    let mut cases: Vec<(SnapshotRow, SnapshotFault, &str)> = Vec::new();
    let mut row = meta_row();
    row.meta_started_at = None;
    cases.push((row, SnapshotFault::MissingStartedAt, "Missing started_at"));
    let mut row = meta_row();
    row.meta_finished_at = None;
    cases.push((row, SnapshotFault::MissingFinishedAt, "Missing finished_at"));
    let mut row = meta_row();
    row.meta_size_basis = None;
    cases.push((row, SnapshotFault::MissingSizeBasis, "Missing size_basis"));
    let mut row = meta_row();
    row.meta_hardlink_policy = None;
    cases.push((row, SnapshotFault::MissingHardlinkPolicy, "Missing hardlink_policy"));
    let mut row = entry_row("/a");
    row.depth = None;
    cases.push((row, SnapshotFault::MissingDepth, "Missing depth"));
    let mut row = entry_row("/a");
    row.size_bytes = None;
    cases.push((row, SnapshotFault::MissingSizeBytes, "Missing size_bytes"));
    let mut row = entry_row("/a");
    row.file_count = None;
    cases.push((row, SnapshotFault::MissingFileCount, "Missing file_count"));
    let mut row = entry_row("/a");
    row.dir_count = None;
    cases.push((row, SnapshotFault::MissingDirCount, "Missing dir_count"));
    let mut row = error_row("/e");
    row.error_code = None;
    cases.push((row, SnapshotFault::MissingErrorCode, "Missing error_code"));
    let mut row = error_row("/e");
    row.error_message = None;
    cases.push((row, SnapshotFault::MissingErrorMessage, "Missing error_message"));
    for (row, fault, message) in cases {
        let rows = if row.meta_scan_root.is_some() {
            vec![entry_row("/before"), row, entry_row("/later")]
        } else {
            vec![meta_row(), row, entry_row("/later")]
        };
        let result = decode(&rows);
        assert_eq!(result.err(), Some(fault));
        assert_eq!(fault.message(), message);
    }
    assert_eq!(SnapshotFault::NoMetadata.message(), "No metadata found");
}

#[test]
fn reader_takes_row_groups_one_by_one() {
    let mut reader = SnapshotReader::new();
    reader.read_batch(&[entry_row("/a"), entry_row("/b")]).expect("entries");
    reader.read_batch(&[]).expect("nothing");
    reader.read_row(&error_row("/e")).expect("error");
    reader.read_batch(&[meta_row()]).expect("metadata");
    let (meta, entries, errors) = reader.finish().expect("complete");
    assert_eq!(meta.finished_at, "f");
    assert_eq!(entries.len(), 2);
    assert_eq!(errors.len(), 1);

    let mut reader = SnapshotReader::new();
    reader.read_batch(&[entry_row("/a")]).expect("entries");
    assert_eq!(reader.finish().err(), Some(SnapshotFault::NoMetadata));
}

#[test]
fn writing_skips_empty_groups() {
    let meta = SnapshotMeta {
        scan_root: "/r".to_string(),
        started_at: String::new(),
        finished_at: String::new(),
        size_basis: String::new(),
        hardlink_policy: String::new(),
        excludes: Vec::new(),
        strategy: String::new(),
    };
    let error = ErrorItem {
        path: "/x".to_string(),
        code: "IO".to_string(),
        message: String::new(),
    };
    let groups = row_groups(&meta, &[], &[error]);
    assert_eq!(groups.len(), 2);
    assert_eq!(groups[0][0].error_path.as_deref(), Some("/x"));
    assert_eq!(groups[1][0].meta_scan_root.as_deref(), Some("/r"));
    let (read, entries, errors) = decode(&flat(groups)).expect("readable");
    assert_eq!(read.strategy, "");
    assert!(entries.is_empty());
    assert_eq!(errors.len(), 1);
}

#[test]
fn metadata_of_a_scan_has_the_labels_of_its_options() {
    let mut opts = dua::ScanOptions::default();
    opts.basis = dua::SizeBasis::Logical;
    opts.hardlink_policy = dua::HardlinkPolicy::Count;
    let started = std::time::SystemTime::UNIX_EPOCH;
    let finished = started + std::time::Duration::from_secs(5);
    let meta = dua::snapshot_metadata(
        "/r",
        &started,
        &finished,
        &opts,
        dua::StrategyKind::PosixOptimized,
    );
    assert_eq!(meta.scan_root, "/r");
    assert_eq!(meta.size_basis, "logical");
    assert_eq!(meta.hardlink_policy, "count");
    assert_eq!(meta.strategy, "posix");
    assert!(meta.excludes.is_empty());
    assert_eq!(meta.started_at, format!("{started:?}"));
    assert_eq!(meta.finished_at, format!("{finished:?}"));
    assert_ne!(meta.started_at, meta.finished_at);

    let meta = dua::snapshot_metadata(
        "/r",
        &started,
        &finished,
        &dua::ScanOptions::default(),
        dua::StrategyKind::Legacy,
    );
    assert_eq!(meta.size_basis, "physical");
    assert_eq!(meta.hardlink_policy, "dedupe");
    assert_eq!(meta.strategy, "legacy");
}
