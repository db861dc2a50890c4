//! Snapshot rows: how a scan is laid out in the columnar snapshot, and how
//! it is read back.
//!
//! A snapshot has fifteen nullable columns in three clusters: six for an
//! entry, six for the metadata of the scan, three for an error. Every row
//! fills one cluster and leaves the others null. This module knows the
//! rows as plain values; how they stand in columns is another's matter.

use vstd::prelude::*;

use crate::models::{
    DirectoryEntry, DirectoryEntryView, ErrorItem, ErrorItemView, SnapshotMeta, SnapshotMetaView,
};

verus! {

/// The type of the values of a column.
#[derive(Debug, Clone, Copy, PartialEq, Eq, Structural)]
pub enum ColumnKind {
    Utf8,
    UInt16,
    UInt32,
    UInt64,
}

/// One column of the snapshot schema.
#[derive(Debug, Clone, Copy)]
pub struct ColumnSpec {
    pub name: &'static str,
    pub kind: ColumnKind,
    pub nullable: bool,
}

/// The number of columns of a snapshot.
pub const COLUMN_COUNT: usize = 15;

/// The name of the column at `position`.
pub open spec fn column_name(position: int) -> Seq<char> {
    if position == 0 {
        "path"@
    } else if position == 1 {
        "parent_path"@
    } else if position == 2 {
        "depth"@
    } else if position == 3 {
        "size_bytes"@
    } else if position == 4 {
        "file_count"@
    } else if position == 5 {
        "dir_count"@
    } else if position == 6 {
        "meta_scan_root"@
    } else if position == 7 {
        "meta_started_at"@
    } else if position == 8 {
        "meta_finished_at"@
    } else if position == 9 {
        "meta_size_basis"@
    } else if position == 10 {
        "meta_hardlink_policy"@
    } else if position == 11 {
        "meta_strategy"@
    } else if position == 12 {
        "error_path"@
    } else if position == 13 {
        "error_code"@
    } else {
        "error_message"@
    }
}

/// The type of the column at `position`.
pub open spec fn column_kind(position: int) -> ColumnKind {
    if position == 2 {
        ColumnKind::UInt16
    } else if position == 3 {
        ColumnKind::UInt64
    } else if position == 4 || position == 5 {
        ColumnKind::UInt32
    } else {
        ColumnKind::Utf8
    }
}

/// Return the schema shared by snapshot writers and readers: the fifteen
/// columns in their order, every one nullable.
#[must_use]
pub fn snapshot_schema() -> (schema: Vec<ColumnSpec>)
    ensures
        schema@.len() == COLUMN_COUNT,
        forall|i: int|
            0 <= i < COLUMN_COUNT ==> (#[trigger] schema@[i]).name@ == column_name(i) && schema@[i].kind
                == column_kind(i) && schema@[i].nullable,
{
    let mut schema: Vec<ColumnSpec> = Vec::new();
    schema.push(ColumnSpec { name: "path", kind: ColumnKind::Utf8, nullable: true });
    schema.push(ColumnSpec { name: "parent_path", kind: ColumnKind::Utf8, nullable: true });
    schema.push(ColumnSpec { name: "depth", kind: ColumnKind::UInt16, nullable: true });
    schema.push(ColumnSpec { name: "size_bytes", kind: ColumnKind::UInt64, nullable: true });
    schema.push(ColumnSpec { name: "file_count", kind: ColumnKind::UInt32, nullable: true });
    schema.push(ColumnSpec { name: "dir_count", kind: ColumnKind::UInt32, nullable: true });
    schema.push(ColumnSpec { name: "meta_scan_root", kind: ColumnKind::Utf8, nullable: true });
    schema.push(ColumnSpec { name: "meta_started_at", kind: ColumnKind::Utf8, nullable: true });
    schema.push(ColumnSpec { name: "meta_finished_at", kind: ColumnKind::Utf8, nullable: true });
    schema.push(ColumnSpec { name: "meta_size_basis", kind: ColumnKind::Utf8, nullable: true });
    schema.push(
        ColumnSpec { name: "meta_hardlink_policy", kind: ColumnKind::Utf8, nullable: true },
    );
    schema.push(ColumnSpec { name: "meta_strategy", kind: ColumnKind::Utf8, nullable: true });
    schema.push(ColumnSpec { name: "error_path", kind: ColumnKind::Utf8, nullable: true });
    schema.push(ColumnSpec { name: "error_code", kind: ColumnKind::Utf8, nullable: true });
    schema.push(ColumnSpec { name: "error_message", kind: ColumnKind::Utf8, nullable: true });
    schema
}

/// One row of a snapshot.
#[derive(Debug)]
pub struct SnapshotRow {
    pub path: Option<String>,
    pub parent_path: Option<String>,
    pub depth: Option<u16>,
    pub size_bytes: Option<u64>,
    pub file_count: Option<u32>,
    pub dir_count: Option<u32>,
    pub meta_scan_root: Option<String>,
    pub meta_started_at: Option<String>,
    pub meta_finished_at: Option<String>,
    pub meta_size_basis: Option<String>,
    pub meta_hardlink_policy: Option<String>,
    pub meta_strategy: Option<String>,
    pub error_path: Option<String>,
    pub error_code: Option<String>,
    pub error_message: Option<String>,
}

/// Mathematical value of a [`SnapshotRow`].
pub struct SnapshotRowView {
    pub path: Option<Seq<char>>,
    pub parent_path: Option<Seq<char>>,
    pub depth: Option<u16>,
    pub size_bytes: Option<u64>,
    pub file_count: Option<u32>,
    pub dir_count: Option<u32>,
    pub meta_scan_root: Option<Seq<char>>,
    pub meta_started_at: Option<Seq<char>>,
    pub meta_finished_at: Option<Seq<char>>,
    pub meta_size_basis: Option<Seq<char>>,
    pub meta_hardlink_policy: Option<Seq<char>>,
    pub meta_strategy: Option<Seq<char>>,
    pub error_path: Option<Seq<char>>,
    pub error_code: Option<Seq<char>>,
    pub error_message: Option<Seq<char>>,
}

/// The characters of an optional owned string.
pub open spec fn cell(s: Option<String>) -> Option<Seq<char>> {
    match s {
        Some(t) => Some(t@),
        None => None,
    }
}

impl View for SnapshotRow {
    type V = SnapshotRowView;

    open spec fn view(&self) -> SnapshotRowView {
        SnapshotRowView {
            path: cell(self.path),
            parent_path: cell(self.parent_path),
            depth: self.depth,
            size_bytes: self.size_bytes,
            file_count: self.file_count,
            dir_count: self.dir_count,
            meta_scan_root: cell(self.meta_scan_root),
            meta_started_at: cell(self.meta_started_at),
            meta_finished_at: cell(self.meta_finished_at),
            meta_size_basis: cell(self.meta_size_basis),
            meta_hardlink_policy: cell(self.meta_hardlink_policy),
            meta_strategy: cell(self.meta_strategy),
            error_path: cell(self.error_path),
            error_code: cell(self.error_code),
            error_message: cell(self.error_message),
        }
    }
}

impl DeepView for SnapshotRow {
    type V = SnapshotRowView;

    open spec fn deep_view(&self) -> SnapshotRowView {
        self@
    }
}

/// The row in which every column is null.
pub open spec fn null_row() -> SnapshotRowView {
    SnapshotRowView {
        path: None,
        parent_path: None,
        depth: None,
        size_bytes: None,
        file_count: None,
        dir_count: None,
        meta_scan_root: None,
        meta_started_at: None,
        meta_finished_at: None,
        meta_size_basis: None,
        meta_hardlink_policy: None,
        meta_strategy: None,
        error_path: None,
        error_code: None,
        error_message: None,
    }
}

/// The row of an entry: the entry cluster filled, the others null.
pub open spec fn entry_row(entry: DirectoryEntryView) -> SnapshotRowView {
    SnapshotRowView {
        path: Some(entry.path),
        parent_path: entry.parent_path,
        depth: Some(entry.depth),
        size_bytes: Some(entry.size_bytes),
        file_count: Some(entry.file_count),
        dir_count: Some(entry.dir_count),
        ..null_row()
    }
}

/// The row of an error: the error cluster filled, the others null.
pub open spec fn error_row(error: ErrorItemView) -> SnapshotRowView {
    SnapshotRowView {
        error_path: Some(error.path),
        error_code: Some(error.code),
        error_message: Some(error.message),
        ..null_row()
    }
}

/// The row of the metadata: the metadata cluster filled, the others null.
/// The excluded paths, which are reserved, are not written.
pub open spec fn metadata_row(meta: SnapshotMetaView) -> SnapshotRowView {
    SnapshotRowView {
        meta_scan_root: Some(meta.scan_root),
        meta_started_at: Some(meta.started_at),
        meta_finished_at: Some(meta.finished_at),
        meta_size_basis: Some(meta.size_basis),
        meta_hardlink_policy: Some(meta.hardlink_policy),
        meta_strategy: Some(meta.strategy),
        ..null_row()
    }
}

fn empty_row() -> (row: SnapshotRow)
    ensures
        row@ == null_row(),
{
    SnapshotRow {
        path: None,
        parent_path: None,
        depth: None,
        size_bytes: None,
        file_count: None,
        dir_count: None,
        meta_scan_root: None,
        meta_started_at: None,
        meta_finished_at: None,
        meta_size_basis: None,
        meta_hardlink_policy: None,
        meta_strategy: None,
        error_path: None,
        error_code: None,
        error_message: None,
    }
}

fn clone_cell(s: &Option<String>) -> (c: Option<String>)
    ensures
        c == *s,
{
    match s {
        Some(t) => Some(t.clone()),
        None => None,
    }
}

/// The rows of a group of entries, one row for each entry, in order.
pub fn rows_of_entries(entries: &[DirectoryEntry]) -> (rows: Vec<SnapshotRow>)
    ensures
        rows.deep_view() == entries@.map_values(|e: DirectoryEntry| entry_row(e@)),
{
    let mut rows: Vec<SnapshotRow> = Vec::new();
    let mut i: usize = 0;
    while i < entries.len()
        invariant
            i <= entries.len(),
            rows@.len() == i,
            forall|k: int| 0 <= k < i ==> (#[trigger] rows@[k])@ == entry_row(entries@[k]@),
        decreases entries.len() - i,
    {
        let entry = &entries[i];
        let mut row = empty_row();
        row.path = Some(entry.path.clone());
        row.parent_path = clone_cell(&entry.parent_path);
        row.depth = Some(entry.depth);
        row.size_bytes = Some(entry.size_bytes);
        row.file_count = Some(entry.file_count);
        row.dir_count = Some(entry.dir_count);
        rows.push(row);
        i += 1;
    }
    assert(rows.deep_view() =~= entries@.map_values(|e: DirectoryEntry| entry_row(e@)));
    rows
}

/// The rows of a group of errors, one row for each error, in order.
pub fn rows_of_errors(errors: &[ErrorItem]) -> (rows: Vec<SnapshotRow>)
    ensures
        rows.deep_view() == errors@.map_values(|e: ErrorItem| error_row(e@)),
{
    let mut rows: Vec<SnapshotRow> = Vec::new();
    let mut i: usize = 0;
    while i < errors.len()
        invariant
            i <= errors.len(),
            rows@.len() == i,
            forall|k: int| 0 <= k < i ==> (#[trigger] rows@[k])@ == error_row(errors@[k]@),
        decreases errors.len() - i,
    {
        let error = &errors[i];
        let mut row = empty_row();
        row.error_path = Some(error.path.clone());
        row.error_code = Some(error.code.clone());
        row.error_message = Some(error.message.clone());
        rows.push(row);
        i += 1;
    }
    assert(rows.deep_view() =~= errors@.map_values(|e: ErrorItem| error_row(e@)));
    rows
}

/// The group of the metadata: its single row.
pub fn rows_of_metadata(meta: &SnapshotMeta) -> (rows: Vec<SnapshotRow>)
    ensures
        rows.deep_view() == seq![metadata_row(meta@)],
{
    let mut row = empty_row();
    row.meta_scan_root = Some(meta.scan_root.clone());
    row.meta_started_at = Some(meta.started_at.clone());
    row.meta_finished_at = Some(meta.finished_at.clone());
    row.meta_size_basis = Some(meta.size_basis.clone());
    row.meta_hardlink_policy = Some(meta.hardlink_policy.clone());
    row.meta_strategy = Some(meta.strategy.clone());
    let mut rows: Vec<SnapshotRow> = Vec::new();
    rows.push(row);
    assert(rows.deep_view() =~= seq![metadata_row(meta@)]);
    rows
}

/// The row groups of a snapshot, in the order in which they are written:
/// the entries, where there are any; the errors, where there are any; the
/// metadata.
pub open spec fn groups_written(
    meta: SnapshotMetaView,
    entries: Seq<DirectoryEntryView>,
    errors: Seq<ErrorItemView>,
) -> Seq<Seq<SnapshotRowView>> {
    let of_entries = if entries.len() > 0 {
        seq![entries.map_values(|e: DirectoryEntryView| entry_row(e))]
    } else {
        Seq::empty()
    };
    let of_errors = if errors.len() > 0 {
        seq![errors.map_values(|e: ErrorItemView| error_row(e))]
    } else {
        Seq::empty()
    };
    of_entries + of_errors + seq![seq![metadata_row(meta)]]
}

/// The row groups of a snapshot, in the order in which they are written:
/// the entries, where there are any; the errors, where there are any; the
/// metadata.
pub fn row_groups(meta: &SnapshotMeta, entries: &[DirectoryEntry], errors: &[ErrorItem]) -> (groups:
    Vec<Vec<SnapshotRow>>)
    ensures
        groups.deep_view() == groups_written(
            meta@,
            entries@.map_values(|e: DirectoryEntry| e@),
            errors@.map_values(|e: ErrorItem| e@),
        ),
        rows_of(groups.deep_view()) == written(
            meta@,
            entries@.map_values(|e: DirectoryEntry| e@),
            errors@.map_values(|e: ErrorItem| e@),
        ),
        groups@.len() == (if entries@.len() > 0 {
            1int
        } else {
            0int
        }) + (if errors@.len() > 0 {
            1int
        } else {
            0int
        }) + 1,
        forall|g: int| 0 <= g < groups@.len() ==> (#[trigger] groups@[g])@.len() > 0,
{
    let ghost entry_rows = entries@.map_values(|e: DirectoryEntry| entry_row(e@));
    let ghost error_rows = errors@.map_values(|e: ErrorItem| error_row(e@));
    let mut groups: Vec<Vec<SnapshotRow>> = Vec::new();
    assert(rows_of(groups.deep_view()) =~= Seq::<SnapshotRowView>::empty());
    if entries.len() > 0 {
        let batch = rows_of_entries(entries);
        let ghost before = groups.deep_view();
        groups.push(batch);
        proof {
            assert(groups.deep_view() =~= before.push(entry_rows));
            assert(groups.deep_view().drop_last() =~= before);
        }
    }
    assert(rows_of(groups.deep_view()) =~= entry_rows);
    if errors.len() > 0 {
        let batch = rows_of_errors(errors);
        let ghost before = groups.deep_view();
        groups.push(batch);
        proof {
            assert(groups.deep_view() =~= before.push(error_rows));
            assert(groups.deep_view().drop_last() =~= before);
        }
    }
    assert(rows_of(groups.deep_view()) =~= entry_rows + error_rows);
    let batch = rows_of_metadata(meta);
    let ghost before = groups.deep_view();
    groups.push(batch);
    proof {
        assert(groups.deep_view() =~= before.push(seq![metadata_row(meta@)]));
        assert(groups.deep_view().drop_last() =~= before);
        assert(entries@.map_values(|e: DirectoryEntry| e@).map_values(
            |e: DirectoryEntryView| entry_row(e),
        ) =~= entry_rows);
        assert(errors@.map_values(|e: ErrorItem| e@).map_values(|e: ErrorItemView| error_row(e))
            =~= error_rows);
        assert(groups.deep_view() =~= groups_written(
            meta@,
            entries@.map_values(|e: DirectoryEntry| e@),
            errors@.map_values(|e: ErrorItem| e@),
        ));
    }
    groups
}

/// The rows of row groups, one group after the other.
pub open spec fn rows_of(groups: Seq<Seq<SnapshotRowView>>) -> Seq<SnapshotRowView>
    decreases groups.len(),
{
    if groups.len() == 0 {
        Seq::empty()
    } else {
        rows_of(groups.drop_last()) + groups.last()
    }
}

/// The rows of a snapshot as they are written: a row for every entry, a
/// row for every error, and the row of the metadata.
pub open spec fn written(
    meta: SnapshotMetaView,
    entries: Seq<DirectoryEntryView>,
    errors: Seq<ErrorItemView>,
) -> Seq<SnapshotRowView> {
    entries.map_values(|e: DirectoryEntryView| entry_row(e)) + errors.map_values(
        |e: ErrorItemView| error_row(e),
    ) + seq![metadata_row(meta)]
}

/// The row groups of a snapshot hold its rows.
pub proof fn lemma_groups_hold_the_rows(
    meta: SnapshotMetaView,
    entries: Seq<DirectoryEntryView>,
    errors: Seq<ErrorItemView>,
)
    ensures
        rows_of(groups_written(meta, entries, errors)) == written(meta, entries, errors),
{
    let groups = groups_written(meta, entries, errors);
    let entry_rows = entries.map_values(|e: DirectoryEntryView| entry_row(e));
    let error_rows = errors.map_values(|e: ErrorItemView| error_row(e));
    let last = seq![metadata_row(meta)];
    reveal_with_fuel(rows_of, 4);
    assert(groups.last() == last);
    if entries.len() > 0 && errors.len() > 0 {
        assert(groups =~= seq![entry_rows, error_rows, last]);
        assert(groups.drop_last() =~= seq![entry_rows, error_rows]);
        assert(groups.drop_last().drop_last() =~= seq![entry_rows]);
        assert(groups.drop_last().drop_last().drop_last() =~= Seq::empty());
        assert(rows_of(groups) =~= entry_rows + error_rows + last);
    } else if entries.len() > 0 {
        assert(groups =~= seq![entry_rows, last]);
        assert(groups.drop_last() =~= seq![entry_rows]);
        assert(groups.drop_last().drop_last() =~= Seq::empty());
        assert(rows_of(groups) =~= entry_rows + error_rows + last);
    } else if errors.len() > 0 {
        assert(groups =~= seq![error_rows, last]);
        assert(groups.drop_last() =~= seq![error_rows]);
        assert(groups.drop_last().drop_last() =~= Seq::empty());
        assert(rows_of(groups) =~= entry_rows + error_rows + last);
    } else {
        assert(groups =~= seq![last]);
        assert(groups.drop_last() =~= Seq::empty());
        assert(rows_of(groups) =~= entry_rows + error_rows + last);
    }
}

/// What is wrong with a snapshot that cannot be read.
#[derive(Debug, Clone, Copy, PartialEq, Eq, Structural)]
pub enum SnapshotFault {
    /// The metadata row has no start time.
    MissingStartedAt,
    /// The metadata row has no finish time.
    MissingFinishedAt,
    /// The metadata row has no size basis.
    MissingSizeBasis,
    /// The metadata row has no hardlink policy.
    MissingHardlinkPolicy,
    /// An entry row has no depth.
    MissingDepth,
    /// An entry row has no size.
    MissingSizeBytes,
    /// An entry row has no file count.
    MissingFileCount,
    /// An entry row has no directory count.
    MissingDirCount,
    /// An error row has no code.
    MissingErrorCode,
    /// An error row has no message.
    MissingErrorMessage,
    /// No row holds metadata.
    NoMetadata,
}

impl SnapshotFault {
    /// The message of the fault.
    pub open spec fn text(self) -> Seq<char> {
        match self {
            SnapshotFault::MissingStartedAt => "Missing started_at"@,
            SnapshotFault::MissingFinishedAt => "Missing finished_at"@,
            SnapshotFault::MissingSizeBasis => "Missing size_basis"@,
            SnapshotFault::MissingHardlinkPolicy => "Missing hardlink_policy"@,
            SnapshotFault::MissingDepth => "Missing depth"@,
            SnapshotFault::MissingSizeBytes => "Missing size_bytes"@,
            SnapshotFault::MissingFileCount => "Missing file_count"@,
            SnapshotFault::MissingDirCount => "Missing dir_count"@,
            SnapshotFault::MissingErrorCode => "Missing error_code"@,
            SnapshotFault::MissingErrorMessage => "Missing error_message"@,
            SnapshotFault::NoMetadata => "No metadata found"@,
        }
    }

    /// The message of the fault.
    pub fn message(&self) -> (text: &'static str)
        ensures
            text@ == self.text(),
    {
        match self {
            SnapshotFault::MissingStartedAt => "Missing started_at",
            SnapshotFault::MissingFinishedAt => "Missing finished_at",
            SnapshotFault::MissingSizeBasis => "Missing size_basis",
            SnapshotFault::MissingHardlinkPolicy => "Missing hardlink_policy",
            SnapshotFault::MissingDepth => "Missing depth",
            SnapshotFault::MissingSizeBytes => "Missing size_bytes",
            SnapshotFault::MissingFileCount => "Missing file_count",
            SnapshotFault::MissingDirCount => "Missing dir_count",
            SnapshotFault::MissingErrorCode => "Missing error_code",
            SnapshotFault::MissingErrorMessage => "Missing error_message",
            SnapshotFault::NoMetadata => "No metadata found",
        }
    }
}

/// The metadata in a row whose scan root is set. A row without a strategy
/// is one of the legacy strategy.
pub open spec fn metadata_in(row: SnapshotRowView) -> Result<SnapshotMetaView, SnapshotFault> {
    if row.meta_started_at is None {
        Err(SnapshotFault::MissingStartedAt)
    } else if row.meta_finished_at is None {
        Err(SnapshotFault::MissingFinishedAt)
    } else if row.meta_size_basis is None {
        Err(SnapshotFault::MissingSizeBasis)
    } else if row.meta_hardlink_policy is None {
        Err(SnapshotFault::MissingHardlinkPolicy)
    } else {
        Ok(
            SnapshotMetaView {
                scan_root: row.meta_scan_root->0,
                started_at: row.meta_started_at->0,
                finished_at: row.meta_finished_at->0,
                size_basis: row.meta_size_basis->0,
                hardlink_policy: row.meta_hardlink_policy->0,
                excludes: Seq::empty(),
                strategy: match row.meta_strategy {
                    Some(s) => s,
                    None => "legacy"@,
                },
            },
        )
    }
}

/// The entry in a row whose path is set.
pub open spec fn entry_in(row: SnapshotRowView) -> Result<DirectoryEntryView, SnapshotFault> {
    if row.depth is None {
        Err(SnapshotFault::MissingDepth)
    } else if row.size_bytes is None {
        Err(SnapshotFault::MissingSizeBytes)
    } else if row.file_count is None {
        Err(SnapshotFault::MissingFileCount)
    } else if row.dir_count is None {
        Err(SnapshotFault::MissingDirCount)
    } else {
        Ok(
            DirectoryEntryView {
                path: row.path->0,
                parent_path: row.parent_path,
                depth: row.depth->0,
                size_bytes: row.size_bytes->0,
                file_count: row.file_count->0,
                dir_count: row.dir_count->0,
            },
        )
    }
}

/// The error in a row whose error path is set.
pub open spec fn error_in(row: SnapshotRowView) -> Result<ErrorItemView, SnapshotFault> {
    if row.error_code is None {
        Err(SnapshotFault::MissingErrorCode)
    } else if row.error_message is None {
        Err(SnapshotFault::MissingErrorMessage)
    } else {
        Ok(
            ErrorItemView {
                path: row.error_path->0,
                code: row.error_code->0,
                message: row.error_message->0,
            },
        )
    }
}

/// What has been read of a snapshot.
pub struct Reading {
    pub meta: Option<SnapshotMetaView>,
    pub entries: Seq<DirectoryEntryView>,
    pub errors: Seq<ErrorItemView>,
}

impl Reading {
    /// Nothing read yet.
    pub open spec fn nothing() -> Reading {
        Reading { meta: None, entries: Seq::empty(), errors: Seq::empty() }
    }
}

/// Whether a row gives the metadata of a reading: it is the first row
/// whose scan root is set.
pub open spec fn gives_metadata(reading: Reading, row: SnapshotRowView) -> bool {
    reading.meta is None && row.meta_scan_root is Some
}

/// The reading after one more row. A row is told by the cluster that is
/// set in it: the first row with a scan root gives the metadata; a row
/// with an error path is an error; a row with a path that is not empty is
/// an entry; any other row is passed over.
pub open spec fn read_row(reading: Reading, row: SnapshotRowView) -> Result<Reading, SnapshotFault> {
    if gives_metadata(reading, row) && metadata_in(row) is Err {
        Err(metadata_in(row)->Err_0)
    } else {
        let noted = if gives_metadata(reading, row) {
            Reading { meta: Some(metadata_in(row)->Ok_0), ..reading }
        } else {
            reading
        };
        if row.error_path is Some {
            match error_in(row) {
                Ok(e) => Ok(Reading { errors: noted.errors.push(e), ..noted }),
                Err(f) => Err(f),
            }
        } else if row.path is Some && row.path->0.len() > 0 {
            match entry_in(row) {
                Ok(e) => Ok(Reading { entries: noted.entries.push(e), ..noted }),
                Err(f) => Err(f),
            }
        } else {
            Ok(noted)
        }
    }
}

/// The reading after the first `upto` of `rows`, or the first fault.
pub open spec fn read_rows(reading: Reading, rows: Seq<SnapshotRowView>, upto: int) -> Result<
    Reading,
    SnapshotFault,
>
    decreases upto,
{
    if upto <= 0 || upto > rows.len() {
        Ok(reading)
    } else {
        match read_rows(reading, rows, upto - 1) {
            Ok(before) => read_row(before, rows[upto - 1]),
            Err(f) => Err(f),
        }
    }
}

/// What a snapshot holds: its metadata, entries and errors; or what is
/// wrong with it.
pub open spec fn decoded(rows: Seq<SnapshotRowView>) -> Result<
    (SnapshotMetaView, Seq<DirectoryEntryView>, Seq<ErrorItemView>),
    SnapshotFault,
> {
    match read_rows(Reading::nothing(), rows, rows.len() as int) {
        Err(f) => Err(f),
        Ok(reading) => match reading.meta {
            None => Err(SnapshotFault::NoMetadata),
            Some(meta) => Ok((meta, reading.entries, reading.errors)),
        },
    }
}

/// Reader of a snapshot, fed row group by row group.
pub struct SnapshotReader {
    meta: Option<SnapshotMeta>,
    entries: Vec<DirectoryEntry>,
    errors: Vec<ErrorItem>,
}

/// The value of optional metadata.
pub open spec fn meta_view(meta: Option<SnapshotMeta>) -> Option<SnapshotMetaView> {
    match meta {
        Some(m) => Some(m@),
        None => None,
    }
}

impl View for SnapshotReader {
    type V = Reading;

    closed spec fn view(&self) -> Reading {
        Reading {
            meta: meta_view(self.meta),
            entries: self.entries.deep_view(),
            errors: self.errors.deep_view(),
        }
    }
}

fn extract_metadata(row: &SnapshotRow) -> (r: Result<SnapshotMeta, SnapshotFault>)
    requires
        row.meta_scan_root is Some,
    ensures
        match r {
            Ok(meta) => metadata_in(row@) == Ok::<SnapshotMetaView, SnapshotFault>(meta@),
            Err(f) => metadata_in(row@) == Err::<SnapshotMetaView, SnapshotFault>(f),
        },
{
    let scan_root = match &row.meta_scan_root {
        Some(s) => s.clone(),
        None => String::new(),
    };
    let started_at = match &row.meta_started_at {
        Some(s) => s.clone(),
        None => {
            return Err(SnapshotFault::MissingStartedAt);
        },
    };
    let finished_at = match &row.meta_finished_at {
        Some(s) => s.clone(),
        None => {
            return Err(SnapshotFault::MissingFinishedAt);
        },
    };
    let size_basis = match &row.meta_size_basis {
        Some(s) => s.clone(),
        None => {
            return Err(SnapshotFault::MissingSizeBasis);
        },
    };
    let hardlink_policy = match &row.meta_hardlink_policy {
        Some(s) => s.clone(),
        None => {
            return Err(SnapshotFault::MissingHardlinkPolicy);
        },
    };
    let strategy = match &row.meta_strategy {
        Some(s) => s.clone(),
        None => "legacy".to_owned(),
    };
    let excludes: Vec<String> = Vec::new();
    assert(excludes.deep_view() =~= Seq::<Seq<char>>::empty());
    Ok(
        SnapshotMeta {
            scan_root,
            started_at,
            finished_at,
            size_basis,
            hardlink_policy,
            excludes,
            strategy,
        },
    )
}

fn extract_entry(row: &SnapshotRow) -> (r: Result<DirectoryEntry, SnapshotFault>)
    requires
        row.path is Some,
    ensures
        match r {
            Ok(entry) => entry_in(row@) == Ok::<DirectoryEntryView, SnapshotFault>(entry@),
            Err(f) => entry_in(row@) == Err::<DirectoryEntryView, SnapshotFault>(f),
        },
{
    let path = match &row.path {
        Some(s) => s.clone(),
        None => String::new(),
    };
    let depth = match row.depth {
        Some(d) => d,
        None => {
            return Err(SnapshotFault::MissingDepth);
        },
    };
    let size_bytes = match row.size_bytes {
        Some(n) => n,
        None => {
            return Err(SnapshotFault::MissingSizeBytes);
        },
    };
    let file_count = match row.file_count {
        Some(n) => n,
        None => {
            return Err(SnapshotFault::MissingFileCount);
        },
    };
    let dir_count = match row.dir_count {
        Some(n) => n,
        None => {
            return Err(SnapshotFault::MissingDirCount);
        },
    };
    Ok(
        DirectoryEntry {
            path,
            parent_path: clone_cell(&row.parent_path),
            depth,
            size_bytes,
            file_count,
            dir_count,
        },
    )
}

fn extract_error(row: &SnapshotRow) -> (r: Result<ErrorItem, SnapshotFault>)
    requires
        row.error_path is Some,
    ensures
        match r {
            Ok(error) => error_in(row@) == Ok::<ErrorItemView, SnapshotFault>(error@),
            Err(f) => error_in(row@) == Err::<ErrorItemView, SnapshotFault>(f),
        },
{
    let path = match &row.error_path {
        Some(s) => s.clone(),
        None => String::new(),
    };
    let code = match &row.error_code {
        Some(s) => s.clone(),
        None => {
            return Err(SnapshotFault::MissingErrorCode);
        },
    };
    let message = match &row.error_message {
        Some(s) => s.clone(),
        None => {
            return Err(SnapshotFault::MissingErrorMessage);
        },
    };
    Ok(ErrorItem { path, code, message })
}

impl SnapshotReader {
    /// A reader that has read nothing.
    #[must_use]
    pub fn new() -> (reader: Self)
        ensures
            reader@ == Reading::nothing(),
    {
        let reader = SnapshotReader { meta: None, entries: Vec::new(), errors: Vec::new() };
        assert(reader.entries.deep_view() =~= Seq::<DirectoryEntryView>::empty());
        assert(reader.errors.deep_view() =~= Seq::<ErrorItemView>::empty());
        reader
    }

    /// Read one more row.
    pub fn read_row(&mut self, row: &SnapshotRow) -> (r: Result<(), SnapshotFault>)
        ensures
            match r {
                Ok(()) => read_row(old(self)@, row@) == Ok::<Reading, SnapshotFault>(final(self)@),
                Err(f) => read_row(old(self)@, row@) == Err::<Reading, SnapshotFault>(f),
            },
    {
        if self.meta.is_none() && row.meta_scan_root.is_some() {
            match extract_metadata(row) {
                Ok(meta) => {
                    self.meta = Some(meta);
                },
                Err(f) => {
                    return Err(f);
                },
            }
        }
        if row.error_path.is_some() {
            match extract_error(row) {
                Ok(error) => {
                    let ghost before = self.errors.deep_view();
                    let ghost view = error@;
                    self.errors.push(error);
                    assert(self.errors.deep_view() =~= before.push(view));
                    return Ok(());
                },
                Err(f) => {
                    return Err(f);
                },
            }
        }
        let is_entry = match &row.path {
            Some(path) => !path.as_str().is_empty(),
            None => false,
        };
        if is_entry {
            match extract_entry(row) {
                Ok(entry) => {
                    let ghost before = self.entries.deep_view();
                    let ghost view = entry@;
                    self.entries.push(entry);
                    assert(self.entries.deep_view() =~= before.push(view));
                },
                Err(f) => {
                    return Err(f);
                },
            }
        }
        Ok(())
    }

    /// Read one more row group.
    pub fn read_batch(&mut self, rows: &[SnapshotRow]) -> (r: Result<(), SnapshotFault>)
        ensures
            match r {
                Ok(()) => read_rows(old(self)@, rows.deep_view(), rows@.len() as int) == Ok::<
                    Reading,
                    SnapshotFault,
                >(final(self)@),
                Err(f) => read_rows(old(self)@, rows.deep_view(), rows@.len() as int) == Err::<
                    Reading,
                    SnapshotFault,
                >(f),
            },
    {
        let mut i: usize = 0;
        while i < rows.len()
            invariant
                i <= rows.len(),
                read_rows(old(self)@, rows.deep_view(), i as int) == Ok::<Reading, SnapshotFault>(
                    self@,
                ),
            decreases rows.len() - i,
        {
            assert(rows.deep_view()[i as int] == rows@[i as int]@);
            match self.read_row(&rows[i]) {
                Ok(()) => {},
                Err(f) => {
                    proof {
                        lemma_a_fault_stays(old(self)@, rows.deep_view(), i + 1, rows@.len() as int);
                    }
                    return Err(f);
                },
            }
            i += 1;
        }
        Ok(())
    }

    /// Hand over what was read. A snapshot without metadata is faulty.
    pub fn finish(self) -> (r: Result<
        (SnapshotMeta, Vec<DirectoryEntry>, Vec<ErrorItem>),
        SnapshotFault,
    >)
        ensures
            match r {
                Ok(parts) => self@ == (Reading {
                    meta: Some(parts.0@),
                    entries: parts.1.deep_view(),
                    errors: parts.2.deep_view(),
                }),
                Err(f) => f == SnapshotFault::NoMetadata && self@.meta is None,
            },
    {
        match self.meta {
            Some(meta) => Ok((meta, self.entries, self.errors)),
            None => Err(SnapshotFault::NoMetadata),
        }
    }
}

/// Once a fault is met, reading further rows does not undo it.
pub proof fn lemma_a_fault_stays(reading: Reading, rows: Seq<SnapshotRowView>, at: int, upto: int)
    requires
        0 <= at <= upto <= rows.len(),
        read_rows(reading, rows, at) is Err,
    ensures
        read_rows(reading, rows, upto) == read_rows(reading, rows, at),
    decreases upto - at,
{
    if at < upto {
        lemma_a_fault_stays(reading, rows, at, upto - 1);
    }
}

/// Read a snapshot from its rows, taken in the order of the file.
pub fn decode(rows: &[SnapshotRow]) -> (r: Result<
    (SnapshotMeta, Vec<DirectoryEntry>, Vec<ErrorItem>),
    SnapshotFault,
>)
    ensures
        match r {
            Ok(parts) => decoded(rows.deep_view()) == Ok::<
                (SnapshotMetaView, Seq<DirectoryEntryView>, Seq<ErrorItemView>),
                SnapshotFault,
            >((parts.0@, parts.1.deep_view(), parts.2.deep_view())),
            Err(f) => decoded(rows.deep_view()) == Err::<
                (SnapshotMetaView, Seq<DirectoryEntryView>, Seq<ErrorItemView>),
                SnapshotFault,
            >(f),
        },
{
    let mut reader = SnapshotReader::new();
    match reader.read_batch(rows) {
        Ok(()) => reader.finish(),
        Err(f) => Err(f),
    }
}

/// Reading rows one after the other is reading them all at once.
pub proof fn lemma_reading_in_two_parts(
    reading: Reading,
    first: Seq<SnapshotRowView>,
    second: Seq<SnapshotRowView>,
    upto: int,
)
    requires
        0 <= upto <= second.len(),
    ensures
        read_rows(reading, first + second, first.len() + upto) == match read_rows(
            reading,
            first,
            first.len() as int,
        ) {
            Ok(mid) => read_rows(mid, second, upto),
            Err(f) => Err(f),
        },
    decreases upto,
{
    if upto == 0 {
        lemma_reading_a_prefix(reading, first, second, first.len() as int);
    } else {
        lemma_reading_in_two_parts(reading, first, second, upto - 1);
        assert((first + second)[first.len() + upto - 1] == second[upto - 1]);
    }
}

proof fn lemma_reading_a_prefix(
    reading: Reading,
    first: Seq<SnapshotRowView>,
    second: Seq<SnapshotRowView>,
    upto: int,
)
    requires
        0 <= upto <= first.len(),
    ensures
        read_rows(reading, first + second, upto) == read_rows(reading, first, upto),
    decreases upto,
{
    if upto > 0 {
        lemma_reading_a_prefix(reading, first, second, upto - 1);
        assert((first + second)[upto - 1] == first[upto - 1]);
    }
}

proof fn lemma_reading_entry_rows(reading: Reading, entries: Seq<DirectoryEntryView>, upto: int)
    requires
        0 <= upto <= entries.len(),
        forall|i: int| 0 <= i < entries.len() ==> (#[trigger] entries[i]).path.len() > 0,
    ensures
        read_rows(reading, entries.map_values(|e: DirectoryEntryView| entry_row(e)), upto) == Ok::<
            Reading,
            SnapshotFault,
        >(Reading { entries: reading.entries + entries.take(upto), ..reading }),
    decreases upto,
{
    let rows = entries.map_values(|e: DirectoryEntryView| entry_row(e));
    if upto == 0 {
        assert(reading.entries + entries.take(0) =~= reading.entries);
    } else {
        lemma_reading_entry_rows(reading, entries, upto - 1);
        assert(rows[upto - 1] == entry_row(entries[upto - 1]));
        assert(entries[upto - 1].path.len() > 0);
        assert((reading.entries + entries.take(upto - 1)).push(entries[upto - 1])
            =~= reading.entries + entries.take(upto));
    }
}

proof fn lemma_reading_error_rows(reading: Reading, errors: Seq<ErrorItemView>, upto: int)
    requires
        0 <= upto <= errors.len(),
    ensures
        read_rows(reading, errors.map_values(|e: ErrorItemView| error_row(e)), upto) == Ok::<
            Reading,
            SnapshotFault,
        >(Reading { errors: reading.errors + errors.take(upto), ..reading }),
    decreases upto,
{
    let rows = errors.map_values(|e: ErrorItemView| error_row(e));
    if upto == 0 {
        assert(reading.errors + errors.take(0) =~= reading.errors);
    } else {
        lemma_reading_error_rows(reading, errors, upto - 1);
        assert(rows[upto - 1] == error_row(errors[upto - 1]));
        assert((reading.errors + errors.take(upto - 1)).push(errors[upto - 1]) =~= reading.errors
            + errors.take(upto));
    }
}

/// A snapshot read back gives what was written: the entries and the errors
/// in their order, and the metadata without the excluded paths, which are
/// not written. An entry with an empty path would not be read back, so the
/// entries are to have paths.
pub proof fn lemma_snapshot_round_trip(
    meta: SnapshotMetaView,
    entries: Seq<DirectoryEntryView>,
    errors: Seq<ErrorItemView>,
)
    requires
        forall|i: int| 0 <= i < entries.len() ==> (#[trigger] entries[i]).path.len() > 0,
    ensures
        decoded(written(meta, entries, errors)) == Ok::<
            (SnapshotMetaView, Seq<DirectoryEntryView>, Seq<ErrorItemView>),
            SnapshotFault,
        >((SnapshotMetaView { excludes: Seq::empty(), ..meta }, entries, errors)),
{
    let entry_rows = entries.map_values(|e: DirectoryEntryView| entry_row(e));
    let error_rows = errors.map_values(|e: ErrorItemView| error_row(e));
    let last = seq![metadata_row(meta)];
    let start = Reading::nothing();
    lemma_reading_entry_rows(start, entries, entries.len() as int);
    assert(start.entries + entries.take(entries.len() as int) =~= entries);
    let after_entries = Reading { entries, ..start };
    lemma_reading_error_rows(after_entries, errors, errors.len() as int);
    assert(after_entries.errors + errors.take(errors.len() as int) =~= errors);
    let after_errors = Reading { errors, ..after_entries };
    lemma_reading_in_two_parts(start, entry_rows, error_rows, error_rows.len() as int);
    assert(read_rows(start, entry_rows + error_rows, (entry_rows + error_rows).len() as int)
        == Ok::<Reading, SnapshotFault>(after_errors));
    lemma_reading_in_two_parts(start, entry_rows + error_rows, last, 1);
    assert(read_rows(after_errors, last, 0) == Ok::<Reading, SnapshotFault>(after_errors));
    assert(last[0] == metadata_row(meta));
}

} // verus!
