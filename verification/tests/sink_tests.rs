//! The sinks and the keyed table under them.

use dua::io::rows::{decode, SnapshotRow};
use dua::models::{DirectoryEntry, ErrorItem, SnapshotMeta};
use dua::services::sink::memory::MemorySink;
use dua::services::sink::parquet::{ParquetStreamSink, StreamFault, DEFAULT_BUFFER_CAPACITY};
use dua::services::sink::{ScanSink, SinkFinish};
use dua::services::table::EntryTable;

fn entry(path: &str, size_bytes: u64) -> DirectoryEntry {
    DirectoryEntry {
        path: path.to_string(),
        parent_path: Some("/".to_string()),
        depth: 1,
        size_bytes,
        file_count: 0,
        dir_count: 0,
    }
}

fn error(path: &str) -> ErrorItem {
    ErrorItem {
        path: path.to_string(),
        code: "IO".to_string(),
        message: format!("{path} broke"),
    }
}

fn meta() -> SnapshotMeta {
    SnapshotMeta {
        scan_root: "/".to_string(),
        started_at: "t0".to_string(),
        finished_at: "t1".to_string(),
        size_basis: "logical".to_string(),
        hardlink_policy: "dedupe".to_string(),
        excludes: vec!["ignored".to_string()],
        strategy: "posix".to_string(),
    }
}

fn paths(entries: &[DirectoryEntry]) -> Vec<&str> {
    entries.iter().map(|e| e.path.as_str()).collect()
}

#[test]
fn sink_finish_holds_what_it_is_given() {
    let finish = SinkFinish::new(vec![entry("/a", 1)], vec![error("/b")], 7);
    assert_eq!(finish.entries.len(), 1);
    assert_eq!(finish.entries[0].path, "/a");
    assert_eq!(finish.errors.len(), 1);
    assert_eq!(finish.errors[0].path, "/b");
    assert_eq!(finish.entry_count, 7);
    let empty = SinkFinish::default();
    assert!(empty.entries.is_empty() && empty.errors.is_empty());
    assert_eq!(empty.entry_count, 0);
}

#[test]
fn memory_sink_sorts_by_path_and_keeps_the_last_writer() {
    let mut sink = MemorySink::new();
    for (path, size) in [("/b", 1), ("/a", 2), ("/c", 3), ("/a", 20), ("/B", 4), ("/ab", 5)] {
        sink.record_entry(entry(path, size)).expect("memory never fails");
    }
    sink.record_error(error("/x")).expect("memory never fails");
    sink.record_error(error("/w")).expect("memory never fails");
    sink.set_metadata(&meta()).expect("memory never fails");
    let finish = sink.finish().expect("memory never fails");
    assert_eq!(paths(&finish.entries), vec!["/B", "/a", "/ab", "/b", "/c"]);
    assert_eq!(finish.entries[1].size_bytes, 20);
    assert_eq!(finish.entry_count, 6);
    let errors: Vec<&str> = finish.errors.iter().map(|e| e.path.as_str()).collect();
    assert_eq!(errors, vec!["/x", "/w"]);
}

#[test]
fn memory_sink_orders_paths_by_their_bytes() {
    let mut sink = MemorySink::default();
    let names = ["é", "z", "a\u{10000}", "a\u{ffff}", "", "a", "Z", "aa", "a/b", "a b", "\u{7f}"];
    for name in names {
        sink.record_entry(entry(name, 0)).expect("memory never fails");
    }
    let finish = sink.finish_sorted();
    let mut expected: Vec<&str> = names.to_vec();
    expected.sort();
    assert_eq!(paths(&finish.entries), expected);
}

#[test]
fn memory_sink_sorts_many_entries() {
    let mut sink = MemorySink::new();
    let mut expected = Vec::new();
    for i in 0..5_000u64 {
        let path = format!("/dir{}/file{}", (i * 7919) % 997, (i * 104_729) % 1009);
        sink.record_entry(entry(&path, i)).expect("memory never fails");
        expected.push(path);
    }
    expected.sort();
    expected.dedup();
    let finish = sink.finish_sorted();
    assert_eq!(finish.entry_count, 5_000);
    assert_eq!(finish.entries.len(), expected.len());
    for (kept, path) in finish.entries.iter().zip(expected.iter()) {
        assert_eq!(&kept.path, path);
    }
}

#[test]
fn empty_memory_sink_finishes_empty() {
    let finish = MemorySink::new().finish().expect("memory never fails");
    assert!(finish.entries.is_empty());
    assert!(finish.errors.is_empty());
    assert_eq!(finish.entry_count, 0);
}

#[test]
fn table_keeps_one_entry_per_path() {
    let mut table = EntryTable::with_capacity(4);
    assert_eq!(table.len(), 0);
    table.insert(entry("/a", 1));
    table.insert(entry("/b", 2));
    table.insert(entry("/a", 3));
    assert_eq!(table.len(), 2);
    assert_eq!(table.as_rows().len(), 2);
    let rows = table.into_rows();
    assert_eq!(paths(&rows), vec!["/a", "/b"]);
    assert_eq!(rows[0].size_bytes, 3);
    assert_eq!(EntryTable::new().into_rows().len(), 0);
}

fn rows_of(groups: &[Vec<SnapshotRow>]) -> Vec<SnapshotRow> {
    let mut rows = Vec::new();
    for group in groups {
        for row in group {
            rows.push(clone_row(row));
        }
    }
    rows
}

fn clone_row(row: &SnapshotRow) -> SnapshotRow {
    SnapshotRow {
        path: row.path.clone(),
        parent_path: row.parent_path.clone(),
        depth: row.depth,
        size_bytes: row.size_bytes,
        file_count: row.file_count,
        dir_count: row.dir_count,
        meta_scan_root: row.meta_scan_root.clone(),
        meta_started_at: row.meta_started_at.clone(),
        meta_finished_at: row.meta_finished_at.clone(),
        meta_size_basis: row.meta_size_basis.clone(),
        meta_hardlink_policy: row.meta_hardlink_policy.clone(),
        meta_strategy: row.meta_strategy.clone(),
        error_path: row.error_path.clone(),
        error_code: row.error_code.clone(),
        error_message: row.error_message.clone(),
    }
}

#[test]
fn stream_sink_flushes_in_groups_of_its_capacity() {
    let mut sink = ParquetStreamSink::try_new(Some(3));
    let mut groups: Vec<Vec<SnapshotRow>> = Vec::new();
    let mut flushed_at = Vec::new();
    for i in 0..8u64 {
        if let Some(group) = sink.record_entry(entry(&format!("/e{i}"), i)) {
            flushed_at.push(i);
            groups.push(group);
        }
    }
    assert_eq!(flushed_at, vec![2, 5]);
    assert!(groups.iter().all(|g| g.len() == 3));
    sink.record_error(error("/bad"));
    sink.set_metadata(&meta());
    let (last, finish) = sink.finish();
    let finish = finish.expect("metadata was set");
    assert_eq!(last.len(), 3);
    assert_eq!(last[0].len(), 2);
    assert_eq!(last[1].len(), 1);
    assert_eq!(last[2].len(), 1);
    assert!(finish.entries.is_empty());
    assert_eq!(finish.entry_count, 8);
    assert_eq!(finish.errors.len(), 1);

    groups.extend(last);
    let (read_meta, entries, errors) = decode(&rows_of(&groups)).expect("readable");
    assert_eq!(read_meta.scan_root, "/");
    assert_eq!(read_meta.strategy, "posix");
    assert!(read_meta.excludes.is_empty());
    let read_paths: Vec<String> = entries.iter().map(|e| e.path.clone()).collect();
    let expected: Vec<String> = (0..8).map(|i| format!("/e{i}")).collect();
    assert_eq!(read_paths, expected);
    assert_eq!(entries[7].size_bytes, 7);
    assert_eq!(errors.len(), 1);
    assert_eq!(errors[0].message, "/bad broke");
}

#[test]
fn stream_sink_capacity_has_a_default_and_a_floor() {
    assert_eq!(DEFAULT_BUFFER_CAPACITY, 4096);
    let mut sink = ParquetStreamSink::try_new(None);
    for i in 0..4095u64 {
        assert!(sink.record_entry(entry(&format!("/e{i}"), i)).is_none());
    }
    let group = sink.record_entry(entry("/last", 0)).expect("the buffer is full");
    assert_eq!(group.len(), 4096);
    assert!(sink.flush_entries().is_none());

    let mut sink = ParquetStreamSink::try_new(Some(0));
    assert_eq!(sink.record_entry(entry("/a", 1)).expect("capacity is one").len(), 1);
    assert_eq!(sink.record_entry(entry("/b", 1)).expect("capacity is one").len(), 1);
    let mut sink = ParquetStreamSink::try_new(Some(2));
    assert!(sink.record_entry(entry("/a", 1)).is_none());
    let flushed = sink.flush_entries().expect("one entry waits");
    assert_eq!(flushed.len(), 1);
    assert_eq!(flushed[0].path.as_deref(), Some("/a"));
    assert!(sink.flush_entries().is_none());
}

#[test]
fn stream_sink_fails_without_metadata() {
    let mut sink = ParquetStreamSink::try_new(Some(10));
    assert!(sink.record_entry(entry("/a", 1)).is_none());
    sink.record_error(error("/bad"));
    let (groups, finish) = sink.finish();
    match finish {
        Err(fault) => {
            assert_eq!(fault, StreamFault::MissingMetadata);
            assert_eq!(
                fault.message(),
                "snapshot metadata must be provided before finishing the Parquet sink"
            );
        }
        Ok(_) => panic!("finishing without metadata must fail"),
    }
    assert_eq!(groups.len(), 2);
    assert_eq!(groups[0][0].path.as_deref(), Some("/a"));
    assert_eq!(groups[1][0].error_path.as_deref(), Some("/bad"));
}

#[test]
fn stream_sink_with_nothing_but_metadata_writes_one_row() {
    let mut sink = ParquetStreamSink::try_new(None);
    sink.set_metadata(&meta());
    let (groups, finish) = sink.finish();
    let finish = finish.expect("metadata was set");
    assert_eq!(groups.len(), 1);
    assert_eq!(groups[0].len(), 1);
    assert_eq!(groups[0][0].meta_scan_root.as_deref(), Some("/"));
    assert_eq!(finish.entry_count, 0);
}
