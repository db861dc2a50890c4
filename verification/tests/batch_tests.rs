//! Rows as record batches: what stands in the columns, and what comes
//! back from them.

use arrow_array::{
    Array, ArrayRef, RecordBatch, StringArray, UInt16Array, UInt32Array, UInt64Array,
};
use arrow_schema::{DataType, Schema};
use dua::io::batch::{
    column_label, columns_in, fetch_row, to_batch, to_rows, Batch, CellFault, Cells, ColumnFault,
    TEXT_LIMIT,
};
use dua::io::rows::{SnapshotFault, SnapshotRow};
use dua::io::snapshot::{
    create_entries_batch, create_errors_batch, create_metadata_batch, read_snapshot,
    snapshot_schema, write_snapshot, ReadFault,
};
use dua::models::{DirectoryEntry, ErrorItem, SnapshotMeta};
use std::sync::Arc;

fn empty() -> SnapshotRow {
    SnapshotRow {
        path: None,
        parent_path: None,
        depth: None,
        size_bytes: None,
        file_count: None,
        dir_count: None,
        meta_scan_root: None,
        meta_started_at: None,
        meta_finished_at: None,
        meta_size_basis: None,
        meta_hardlink_policy: None,
        meta_strategy: None,
        error_path: None,
        error_code: None,
        error_message: None,
    }
}

fn full(tag: &str, number: u16) -> SnapshotRow {
    let text = |column: &str| Some(format!("{tag}-{column}"));
    SnapshotRow {
        path: text("path"),
        parent_path: text("parent"),
        depth: Some(number),
        size_bytes: Some(u64::MAX - u64::from(number)),
        file_count: Some(u32::MAX - u32::from(number)),
        dir_count: Some(u32::from(number) + 7),
        meta_scan_root: text("root"),
        meta_started_at: text("started"),
        meta_finished_at: text("finished"),
        meta_size_basis: text("basis"),
        meta_hardlink_policy: text("policy"),
        meta_strategy: text("strategy"),
        error_path: text("error"),
        error_code: text("code"),
        error_message: text("message"),
    }
}

fn shown(row: &SnapshotRow) -> String {
    format!("{row:?}")
}

fn strings<'a>(batch: &'a Batch, name: &str) -> &'a StringArray {
    batch
        .inner
        .column_by_name(name)
        .expect("column")
        .as_any()
        .downcast_ref::<StringArray>()
        .expect("strings")
}

fn meta() -> SnapshotMeta {
    SnapshotMeta {
        scan_root: "/r".to_string(),
        started_at: "s".to_string(),
        finished_at: "f".to_string(),
        size_basis: "logical".to_string(),
        hardlink_policy: "count".to_string(),
        excludes: vec!["/r/skip".to_string()],
        strategy: "posix".to_string(),
    }
}

fn entry(path: &str, size: u64) -> DirectoryEntry {
    DirectoryEntry {
        path: path.to_string(),
        parent_path: None,
        depth: 3,
        size_bytes: size,
        file_count: 2,
        dir_count: 1,
    }
}

#[test]
fn a_batch_has_the_columns_of_the_schema() {
    let batch = to_batch(&[full("a", 1), empty(), full("b", 2)]).expect("fits");
    let schema = batch.inner.schema();
    assert_eq!(batch.inner.num_rows(), 3);
    assert_eq!(batch.inner.num_columns(), 15);
    for (position, column) in snapshot_schema().iter().enumerate() {
        let field = schema.field(position);
        assert_eq!(field.name(), column.name);
        assert_eq!(field.name(), column_label(position));
        assert!(field.is_nullable());
        let expected = match position {
            2 => DataType::UInt16,
            3 => DataType::UInt64,
            4 | 5 => DataType::UInt32,
            _ => DataType::Utf8,
        };
        assert_eq!(field.data_type(), &expected);
        assert_eq!(batch.inner.column(position).len(), 3);
    }
}

#[test]
fn a_batch_holds_the_cells_of_its_rows() {
    let batch = to_batch(&[full("a", 1), empty(), full("b", 2)]).expect("fits");
    let paths = strings(&batch, "path");
    assert_eq!(paths.value(0), "a-path");
    assert!(paths.is_null(1));
    assert_eq!(paths.value(2), "b-path");
    let messages = strings(&batch, "error_message");
    assert_eq!(messages.value(0), "a-message");
    assert!(messages.is_null(1));
    let roots = strings(&batch, "meta_scan_root");
    assert_eq!(roots.value(2), "b-root");

    let depth = batch.inner.column_by_name("depth").expect("depth");
    let depth = depth.as_any().downcast_ref::<UInt16Array>().expect("u16");
    assert_eq!(depth.value(0), 1);
    assert!(depth.is_null(1));
    assert_eq!(depth.value(2), 2);
    let sizes = batch.inner.column_by_name("size_bytes").expect("sizes");
    let sizes = sizes.as_any().downcast_ref::<UInt64Array>().expect("u64");
    assert_eq!(sizes.value(0), u64::MAX - 1);
    assert!(sizes.is_null(1));
    let files = batch.inner.column_by_name("file_count").expect("files");
    let files = files.as_any().downcast_ref::<UInt32Array>().expect("u32");
    assert_eq!(files.value(2), u32::MAX - 2);
    let dirs = batch.inner.column_by_name("dir_count").expect("dirs");
    let dirs = dirs.as_any().downcast_ref::<UInt32Array>().expect("u32");
    assert_eq!(dirs.value(0), 8);
    assert_eq!(dirs.value(2), 9);
    assert_eq!(dirs.null_count(), 1);
}

#[test]
fn an_empty_string_is_not_a_null_cell() {
    let mut row = empty();
    row.path = Some(String::new());
    let batch = to_batch(&[row]).expect("fits");
    let paths = strings(&batch, "path");
    assert!(!paths.is_null(0));
    assert_eq!(paths.value(0), "");
    let rows = to_rows(&batch).expect("rows");
    assert_eq!(rows[0].path.as_deref(), Some(""));
    assert_eq!(rows[0].parent_path, None);
}

#[test]
fn rows_come_back_from_their_batch() {
    let rows = vec![full("a", 1), empty(), full("b", 65535), empty()];
    let batch = to_batch(&rows).expect("fits");
    let back = to_rows(&batch).expect("rows");
    assert_eq!(back.len(), 4);
    for (before, after) in rows.iter().zip(back.iter()) {
        assert_eq!(shown(before), shown(after));
    }
    let third = fetch_row(&batch, 2).expect("row");
    assert_eq!(shown(&third), shown(&rows[2]));
    assert_eq!(third.depth, Some(65535));
}

#[test]
fn no_rows_make_a_batch_without_rows() {
    let batch = to_batch(&[]).expect("fits");
    assert_eq!(batch.inner.num_rows(), 0);
    assert_eq!(batch.inner.num_columns(), 15);
    assert!(to_rows(&batch).expect("rows").is_empty());
}

#[test]
fn columns_are_those_of_the_schema_in_order() {
    let columns = columns_in(&[full("a", 4), empty()]);
    assert_eq!(columns.len(), 15);
    for (position, column) in columns.iter().enumerate() {
        assert_eq!(column.name, column_label(position));
        assert!(column.nullable);
    }
    match &columns[0].cells {
        Cells::Text(cells) => assert_eq!(cells, &vec![Some("a-path".to_string()), None]),
        other => panic!("unexpected cells: {other:?}"),
    }
    match &columns[2].cells {
        Cells::UInt16(cells) => assert_eq!(cells, &vec![Some(4), None]),
        other => panic!("unexpected cells: {other:?}"),
    }
    match &columns[3].cells {
        Cells::UInt64(cells) => assert_eq!(cells, &vec![Some(u64::MAX - 4), None]),
        other => panic!("unexpected cells: {other:?}"),
    }
    match &columns[4].cells {
        Cells::UInt32(cells) => assert_eq!(cells, &vec![Some(u32::MAX - 4), None]),
        other => panic!("unexpected cells: {other:?}"),
    }
    match &columns[5].cells {
        Cells::UInt32(cells) => assert_eq!(cells, &vec![Some(11), None]),
        other => panic!("unexpected cells: {other:?}"),
    }
    match &columns[14].cells {
        Cells::Text(cells) => assert_eq!(cells, &vec![Some("a-message".to_string()), None]),
        other => panic!("unexpected cells: {other:?}"),
    }
    assert_eq!(TEXT_LIMIT, 2_147_483_647);
}

fn without(name: &str) -> Batch {
    let whole = to_batch(&[full("a", 1)]).expect("fits").inner;
    let schema = whole.schema();
    let kept: Vec<usize> = (0..whole.num_columns())
        .filter(|&i| schema.field(i).name() != name)
        .collect();
    Batch {
        inner: whole.project(&kept).expect("projection"),
    }
}

#[test]
fn a_missing_column_is_a_fault_with_its_name() {
    for (position, column) in snapshot_schema().iter().enumerate() {
        let fault = to_rows(&without(column.name)).expect_err("a column is missing");
        assert_eq!(
            fault,
            ColumnFault {
                column: position,
                fault: CellFault::MissingColumn
            }
        );
        assert_eq!(fault.message(), format!("Missing column: {}", column.name));
    }
}

#[test]
fn the_first_faulty_column_is_named() {
    let whole = to_batch(&[full("a", 1)]).expect("fits").inner;
    let kept: Vec<usize> = (0..15).filter(|i| *i != 3 && *i != 9).collect();
    let batch = Batch {
        inner: whole.project(&kept).expect("projection"),
    };
    let fault = to_rows(&batch).expect_err("two columns are missing");
    assert_eq!(fault.column, 3);
    assert_eq!(fault.message(), "Missing column: size_bytes");
}

fn retyped(position: usize) -> Batch {
    let whole = to_batch(&[full("a", 1)]).expect("fits").inner;
    let schema = whole.schema();
    let columns: Vec<(String, ArrayRef)> = (0..whole.num_columns())
        .map(|i| {
            let name = schema.field(i).name().clone();
            let cells: ArrayRef = if i != position {
                whole.column(i).clone()
            } else if *schema.field(i).data_type() == DataType::Utf8 {
                Arc::new(UInt64Array::from(vec![Some(1u64)]))
            } else {
                Arc::new(StringArray::from(vec![Some("1")]))
            };
            (name, cells)
        })
        .collect();
    Batch {
        inner: RecordBatch::try_from_iter(columns).expect("a batch"),
    }
}

#[test]
fn a_column_of_another_type_is_a_fault_with_its_name() {
    for (position, column) in snapshot_schema().iter().enumerate() {
        let fault = to_rows(&retyped(position)).expect_err("a column is of another type");
        assert_eq!(
            fault,
            ColumnFault {
                column: position,
                fault: CellFault::InvalidType
            }
        );
        assert_eq!(fault.message(), format!("Invalid type for: {}", column.name));
    }
}

#[test]
fn a_number_of_another_width_is_of_another_type() {
    let whole = to_batch(&[full("a", 1)]).expect("fits").inner;
    let schema = whole.schema();
    let columns: Vec<(String, ArrayRef)> = (0..whole.num_columns())
        .map(|i| {
            let cells: ArrayRef = if i == 2 {
                Arc::new(UInt32Array::from(vec![Some(1u32)]))
            } else {
                whole.column(i).clone()
            };
            (schema.field(i).name().clone(), cells)
        })
        .collect();
    let batch = Batch {
        inner: RecordBatch::try_from_iter(columns).expect("a batch"),
    };
    let fault = to_rows(&batch).expect_err("depth is of another width");
    assert_eq!(fault.column, 2);
    assert_eq!(fault.fault, CellFault::InvalidType);
}

#[test]
fn a_batch_without_rows_has_no_cell_to_fault() {
    let none = Batch {
        inner: RecordBatch::new_empty(Arc::new(Schema::empty())),
    };
    assert!(to_rows(&none).expect("no rows").is_empty());
    assert_eq!(
        read_snapshot(&[none]).err(),
        Some(ReadFault::Rows(SnapshotFault::NoMetadata))
    );
}

#[test]
fn the_order_of_the_columns_does_not_matter() {
    let whole = to_batch(&[full("a", 1), empty()]).expect("fits").inner;
    let turned: Vec<usize> = (0..15).rev().collect();
    let batch = Batch {
        inner: whole.project(&turned).expect("projection"),
    };
    let rows = to_rows(&batch).expect("rows");
    assert_eq!(shown(&rows[0]), shown(&full("a", 1)));
    assert_eq!(shown(&rows[1]), shown(&empty()));
}

#[test]
fn each_batch_of_a_snapshot_fills_one_cluster() {
    let entries = create_entries_batch(&[entry("/r/a", 10), entry("/r/b", 20)]).expect("fits");
    assert_eq!(entries.inner.num_rows(), 2);
    assert_eq!(strings(&entries, "path").value(1), "/r/b");
    assert!(strings(&entries, "parent_path").is_null(0));
    assert_eq!(strings(&entries, "meta_scan_root").null_count(), 2);
    assert_eq!(strings(&entries, "error_path").null_count(), 2);
    let rows = to_rows(&entries).expect("rows");
    assert_eq!(rows[0].size_bytes, Some(10));
    assert_eq!(rows[1].depth, Some(3));
    assert_eq!(rows[1].file_count, Some(2));
    assert_eq!(rows[1].dir_count, Some(1));

    let error = ErrorItem {
        path: "/r/x".to_string(),
        code: "EACCES".to_string(),
        message: "denied".to_string(),
    };
    let errors = create_errors_batch(&[error]).expect("fits");
    assert_eq!(errors.inner.num_rows(), 1);
    assert_eq!(strings(&errors, "error_code").value(0), "EACCES");
    assert_eq!(strings(&errors, "error_message").value(0), "denied");
    assert_eq!(strings(&errors, "path").null_count(), 1);
    assert_eq!(errors.inner.column(3).null_count(), 1);

    let metadata = create_metadata_batch(&meta()).expect("fits");
    assert_eq!(metadata.inner.num_rows(), 1);
    assert_eq!(strings(&metadata, "meta_scan_root").value(0), "/r");
    assert_eq!(strings(&metadata, "meta_strategy").value(0), "posix");
    assert_eq!(strings(&metadata, "meta_hardlink_policy").value(0), "count");
    assert_eq!(strings(&metadata, "path").null_count(), 1);

    assert_eq!(create_entries_batch(&[]).expect("fits").inner.num_rows(), 0);
    assert_eq!(create_errors_batch(&[]).expect("fits").inner.num_rows(), 0);
}

#[test]
fn a_snapshot_is_read_back_from_its_batches() {
    let entries = vec![entry("/r", 30), entry("/r/a", 10), entry("/r/b", 20)];
    let errors = vec![ErrorItem {
        path: "/r/x".to_string(),
        code: "IO".to_string(),
        message: "broke".to_string(),
    }];
    let batches = write_snapshot(&meta(), &entries, &errors).expect("fits");
    let heights: Vec<usize> = batches.iter().map(|b| b.inner.num_rows()).collect();
    assert_eq!(heights, vec![3, 1, 1]);
    let (read, read_entries, read_errors) = read_snapshot(&batches).expect("readable");
    assert_eq!(read.scan_root, "/r");
    assert_eq!(read.strategy, "posix");
    assert!(read.excludes.is_empty());
    assert_eq!(format!("{read_entries:?}"), format!("{entries:?}"));
    assert_eq!(format!("{read_errors:?}"), format!("{errors:?}"));

    let batches = write_snapshot(&meta(), &[], &errors).expect("fits");
    assert_eq!(batches.len(), 2);
    let batches = write_snapshot(&meta(), &entries, &[]).expect("fits");
    assert_eq!(batches.len(), 2);
}

#[test]
fn faults_of_rows_and_of_columns_are_told_apart() {
    let mut row = empty();
    row.path = Some("/r/a".to_string());
    let no_depth = to_batch(&[row]).expect("fits");
    let result = read_snapshot(&[no_depth]);
    assert_eq!(result.err(), Some(ReadFault::Rows(SnapshotFault::MissingDepth)));
    assert_eq!(
        ReadFault::Rows(SnapshotFault::MissingDepth).message(),
        "Missing depth"
    );

    let metadata = create_metadata_batch(&meta()).expect("fits");
    let result = read_snapshot(&[metadata, without("error_code")]);
    let fault = result.expect_err("the second batch lacks a column");
    assert_eq!(
        fault,
        ReadFault::Column(ColumnFault {
            column: 13,
            fault: CellFault::MissingColumn
        })
    );
    assert_eq!(fault.message(), "Missing column: error_code");
}
