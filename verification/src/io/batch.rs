//! Record batches: the rows of a snapshot as the columns of Arrow arrays
//! in which they are written to a file and read from one.
//!
//! The batches are Arrow's. What this crate takes for granted of them is
//! said with each of the items of the first part; the rest is proved from
//! that.

use std::sync::Arc;

use arrow_array::{
    Array, ArrayRef, RecordBatch, StringArray, UInt16Array, UInt32Array, UInt64Array,
};
use arrow_schema::ArrowError;
use vstd::prelude::*;
use vstd::string::*;
use vstd::utf8::*;

use crate::io::rows::{
    cell, column_kind, column_name, snapshot_schema, ColumnKind, SnapshotRow, SnapshotRowView,
    COLUMN_COUNT,
};
use crate::text::joined;

verus! {

/// A record batch of Arrow, `arrow_array::RecordBatch`: columns of equal
/// length under a schema. The verifier sees nothing of it. The batch is
/// at hand for the caller, who writes it to a file or has read it from
/// one.
#[verifier::external_body]
#[derive(Debug)]
pub struct Batch {
    pub inner: RecordBatch,
}

/// `arrow_schema::ArrowError`, carried through without being looked into.
#[verifier::external_type_specification]
#[verifier::external_body]
pub struct ExArrowError(ArrowError);

/// The number of rows of a record batch.
pub uninterp spec fn batch_height(batch: Batch) -> nat;

/// The names of the columns of a record batch, in the order of its
/// schema.
pub uninterp spec fn batch_names(batch: Batch) -> Seq<Seq<char>>;

/// Whether each column of a record batch may hold null cells, by its
/// schema and in the order of the schema.
pub uninterp spec fn batch_nullable(batch: Batch) -> Seq<bool>;

/// The columns of a record batch that are arrays of strings, each under
/// its name, as the cells of its rows; a null cell is `None`. Where
/// several columns bear one name, the first of them counts, as it does for
/// a lookup by name.
pub uninterp spec fn batch_text(batch: Batch) -> Map<Seq<char>, Seq<Option<Seq<char>>>>;

/// The columns of a record batch that are arrays of unsigned 16-bit
/// numbers, as [`batch_text`] gives those of strings.
pub uninterp spec fn batch_u16(batch: Batch) -> Map<Seq<char>, Seq<Option<u16>>>;

/// The columns of a record batch that are arrays of unsigned 32-bit
/// numbers, as [`batch_text`] gives those of strings.
pub uninterp spec fn batch_u32(batch: Batch) -> Map<Seq<char>, Seq<Option<u32>>>;

/// The columns of a record batch that are arrays of unsigned 64-bit
/// numbers, as [`batch_text`] gives those of strings.
pub uninterp spec fn batch_u64(batch: Batch) -> Map<Seq<char>, Seq<Option<u64>>>;

/// The cells of a column before it becomes an array.
#[derive(Debug)]
pub enum Cells {
    Text(Vec<Option<String>>),
    UInt16(Vec<Option<u16>>),
    UInt32(Vec<Option<u32>>),
    UInt64(Vec<Option<u64>>),
}

/// Mathematical value of [`Cells`].
pub enum CellsView {
    Text(Seq<Option<Seq<char>>>),
    UInt16(Seq<Option<u16>>),
    UInt32(Seq<Option<u32>>),
    UInt64(Seq<Option<u64>>),
}

impl CellsView {
    /// The number of cells.
    pub open spec fn len(self) -> nat {
        match self {
            CellsView::Text(cells) => cells.len(),
            CellsView::UInt16(cells) => cells.len(),
            CellsView::UInt32(cells) => cells.len(),
            CellsView::UInt64(cells) => cells.len(),
        }
    }

    /// Whether a cell is null.
    pub open spec fn has_null(self) -> bool {
        match self {
            CellsView::Text(cells) => exists|i: int| 0 <= i < cells.len() && cells[i] is None,
            CellsView::UInt16(cells) => exists|i: int| 0 <= i < cells.len() && cells[i] is None,
            CellsView::UInt32(cells) => exists|i: int| 0 <= i < cells.len() && cells[i] is None,
            CellsView::UInt64(cells) => exists|i: int| 0 <= i < cells.len() && cells[i] is None,
        }
    }
}

impl View for Cells {
    type V = CellsView;

    open spec fn view(&self) -> CellsView {
        match self {
            Cells::Text(cells) => CellsView::Text(cells@.map_values(|c: Option<String>| cell(c))),
            Cells::UInt16(cells) => CellsView::UInt16(cells@),
            Cells::UInt32(cells) => CellsView::UInt32(cells@),
            Cells::UInt64(cells) => CellsView::UInt64(cells@),
        }
    }
}

/// A column before it enters a record batch.
#[derive(Debug)]
pub struct Column {
    pub name: &'static str,
    pub nullable: bool,
    pub cells: Cells,
}

/// Mathematical value of a [`Column`].
pub struct ColumnView {
    pub name: Seq<char>,
    pub nullable: bool,
    pub cells: CellsView,
}

impl View for Column {
    type V = ColumnView;

    open spec fn view(&self) -> ColumnView {
        ColumnView { name: self.name@, nullable: self.nullable, cells: self.cells@ }
    }
}

impl DeepView for Column {
    type V = ColumnView;

    open spec fn deep_view(&self) -> ColumnView {
        self@
    }
}

/// The most bytes that the strings of one column may have together: a
/// string array places its strings by 32-bit offsets.
pub const TEXT_LIMIT: usize = 2147483647;

/// The bytes of the strings of a column, in UTF-8.
pub open spec fn text_bytes(cells: Seq<Option<Seq<char>>>) -> nat
    decreases cells.len(),
{
    if cells.len() == 0 {
        0
    } else {
        text_bytes(cells.drop_last()) + match cells.last() {
            Some(s) => encode_utf8(s).len(),
            None => 0,
        }
    }
}

/// Whether each column of text is within [`TEXT_LIMIT`].
pub open spec fn within_limit(columns: Seq<ColumnView>) -> bool {
    forall|i: int|
        0 <= i < columns.len() ==> match (#[trigger] columns[i]).cells {
            CellsView::Text(cells) => text_bytes(cells) <= TEXT_LIMIT,
            _ => true,
        }
}

/// Whether columns make a record batch: there is one, they are of one
/// length, and none that is not nullable has a null cell.
pub open spec fn well_shaped(columns: Seq<ColumnView>) -> bool {
    &&& columns.len() > 0
    &&& forall|i: int|
        0 <= i < columns.len() ==> (#[trigger] columns[i]).cells.len() == columns[0].cells.len()
    &&& forall|i: int|
        0 <= i < columns.len() ==> (#[trigger] columns[i]).nullable || !columns[i].cells.has_null()
}

/// Whether no two columns bear the same name.
pub open spec fn distinctly_named(columns: Seq<ColumnView>) -> bool {
    forall|i: int, j: int|
        0 <= i < j < columns.len() ==> (#[trigger] columns[i]).name != (#[trigger] columns[j]).name
}

/// The names that columns bear, in their order.
pub open spec fn names_of(columns: Seq<ColumnView>) -> Seq<Seq<char>> {
    columns.map_values(|column: ColumnView| column.name)
}

/// Whether a record batch holds a column under its name, cell for cell.
pub open spec fn holds_column(batch: Batch, column: ColumnView) -> bool {
    match column.cells {
        CellsView::Text(cells) => batch_text(batch).dom().contains(column.name) && batch_text(
            batch,
        )[column.name] == cells,
        CellsView::UInt16(cells) => batch_u16(batch).dom().contains(column.name) && batch_u16(
            batch,
        )[column.name] == cells,
        CellsView::UInt32(cells) => batch_u32(batch).dom().contains(column.name) && batch_u32(
            batch,
        )[column.name] == cells,
        CellsView::UInt64(cells) => batch_u64(batch).dom().contains(column.name) && batch_u64(
            batch,
        )[column.name] == cells,
    }
}

/// `RecordBatch::try_from_iter_with_nullable` on the columns, each made an
/// array of its type by that type's `From` for a vector of optional
/// values: `StringArray`, `UInt16Array`, `UInt32Array`, `UInt64Array`.
///
/// Taken from Arrow: a string array cannot be made of more than
/// [`TEXT_LIMIT`] bytes; columns that are well shaped are accepted; the
/// batch has as many rows as the columns have cells; its schema has the
/// names of the columns and whether they are nullable, in their order; and
/// where the names differ, each column is found in the batch under its
/// name, with its cells and their nulls.
#[verifier::external_body]
fn assemble(columns: Vec<Column>) -> (r: Result<Batch, ArrowError>)
    requires
        within_limit(columns.deep_view()),
    ensures
        well_shaped(columns.deep_view()) ==> r is Ok,
        r matches Ok(batch) ==> columns@.len() > 0 && batch_height(batch)
            == columns@[0]@.cells.len(),
        r matches Ok(batch) ==> batch_names(batch) == names_of(columns.deep_view()),
        r matches Ok(batch) ==> batch_nullable(batch) == columns.deep_view().map_values(
            |column: ColumnView| column.nullable,
        ),
        r matches Ok(batch) ==> distinctly_named(columns.deep_view()) ==> forall|i: int|
            0 <= i < columns@.len() ==> holds_column(batch, #[trigger] columns@[i]@),
{
    let made = RecordBatch::try_from_iter_with_nullable(
        columns.into_iter().map(
            |column| {
                let cells: ArrayRef = match column.cells {
                    Cells::Text(v) => Arc::new(StringArray::from(v)),
                    Cells::UInt16(v) => Arc::new(UInt16Array::from(v)),
                    Cells::UInt32(v) => Arc::new(UInt32Array::from(v)),
                    Cells::UInt64(v) => Arc::new(UInt64Array::from(v)),
                };
                (column.name, cells, column.nullable)
            },
        ),
    );
    made.map(|inner| Batch { inner })
}

/// `RecordBatch::num_rows` gives the number of rows.
#[verifier::external_body]
fn num_rows(batch: &Batch) -> (n: usize)
    ensures
        n == batch_height(*batch),
{
    batch.inner.num_rows()
}

/// Why a cell cannot be read.
#[derive(Debug, Clone, Copy, PartialEq, Eq, Structural)]
pub enum CellFault {
    /// The batch has no column of the name.
    MissingColumn,
    /// The column of the name is of another type.
    InvalidType,
}

/// What a lookup by name finds in the columns of one type.
pub open spec fn found<T>(
    batch: Batch,
    typed: Map<Seq<char>, Seq<Option<T>>>,
    name: Seq<char>,
    row: int,
) -> Result<Option<T>, CellFault> {
    if typed.dom().contains(name) {
        Ok(typed[name][row])
    } else if batch_names(batch).contains(name) {
        Err(CellFault::InvalidType)
    } else {
        Err(CellFault::MissingColumn)
    }
}

/// A cell of a column of strings: `RecordBatch::column_by_name`, the
/// array taken as a `StringArray`, and its `is_null` and `value` at the
/// row.
///
/// Taken from Arrow: the lookup finds the first column of the name; an
/// array of another type is not taken for one of strings; and a row
/// within the batch is within each of its columns.
#[verifier::external_body]
fn text_cell(batch: &Batch, name: &str, row: usize) -> (r: Result<Option<String>, CellFault>)
    requires
        row < batch_height(*batch),
    ensures
        match r {
            Ok(c) => found(*batch, batch_text(*batch), name@, row as int) == Ok::<
                Option<Seq<char>>,
                CellFault,
            >(cell(c)),
            Err(f) => found(*batch, batch_text(*batch), name@, row as int) == Err::<
                Option<Seq<char>>,
                CellFault,
            >(f),
        },
{
    let column = batch.inner.column_by_name(name).ok_or(CellFault::MissingColumn)?;
    let cells = column.as_any().downcast_ref::<StringArray>().ok_or(CellFault::InvalidType)?;
    Ok(if cells.is_null(row) { None } else { Some(cells.value(row).to_string()) })
}

/// A cell of a column of unsigned 16-bit numbers, read as [`text_cell`]
/// reads one of strings, the array taken as a `UInt16Array`.
#[verifier::external_body]
fn u16_cell(batch: &Batch, name: &str, row: usize) -> (r: Result<Option<u16>, CellFault>)
    requires
        row < batch_height(*batch),
    ensures
        r == found(*batch, batch_u16(*batch), name@, row as int),
{
    let column = batch.inner.column_by_name(name).ok_or(CellFault::MissingColumn)?;
    let cells = column.as_any().downcast_ref::<UInt16Array>().ok_or(CellFault::InvalidType)?;
    Ok(if cells.is_null(row) { None } else { Some(cells.value(row)) })
}

/// A cell of a column of unsigned 32-bit numbers, read as [`text_cell`]
/// reads one of strings, the array taken as a `UInt32Array`.
#[verifier::external_body]
fn u32_cell(batch: &Batch, name: &str, row: usize) -> (r: Result<Option<u32>, CellFault>)
    requires
        row < batch_height(*batch),
    ensures
        r == found(*batch, batch_u32(*batch), name@, row as int),
{
    let column = batch.inner.column_by_name(name).ok_or(CellFault::MissingColumn)?;
    let cells = column.as_any().downcast_ref::<UInt32Array>().ok_or(CellFault::InvalidType)?;
    Ok(if cells.is_null(row) { None } else { Some(cells.value(row)) })
}

/// A cell of a column of unsigned 64-bit numbers, read as [`text_cell`]
/// reads one of strings, the array taken as a `UInt64Array`.
#[verifier::external_body]
fn u64_cell(batch: &Batch, name: &str, row: usize) -> (r: Result<Option<u64>, CellFault>)
    requires
        row < batch_height(*batch),
    ensures
        r == found(*batch, batch_u64(*batch), name@, row as int),
{
    let column = batch.inner.column_by_name(name).ok_or(CellFault::MissingColumn)?;
    let cells = column.as_any().downcast_ref::<UInt64Array>().ok_or(CellFault::InvalidType)?;
    Ok(if cells.is_null(row) { None } else { Some(cells.value(row)) })
}

/// The text of an Arrow error, as Arrow displays it. Nothing is known of
/// the text.
#[verifier::external_body]
fn describe_arrow_error(e: &ArrowError) -> (text: String) {
    format!("{e}")
}

/// The cell of a row in a column of text.
pub open spec fn text_of(row: SnapshotRowView, position: int) -> Option<Seq<char>> {
    if position == 0 {
        row.path
    } else if position == 1 {
        row.parent_path
    } else if position == 6 {
        row.meta_scan_root
    } else if position == 7 {
        row.meta_started_at
    } else if position == 8 {
        row.meta_finished_at
    } else if position == 9 {
        row.meta_size_basis
    } else if position == 10 {
        row.meta_hardlink_policy
    } else if position == 11 {
        row.meta_strategy
    } else if position == 12 {
        row.error_path
    } else if position == 13 {
        row.error_code
    } else {
        row.error_message
    }
}

/// The cells of rows in the column at `position`.
pub open spec fn cells_of(rows: Seq<SnapshotRowView>, position: int) -> CellsView {
    if position == 2 {
        CellsView::UInt16(rows.map_values(|r: SnapshotRowView| r.depth))
    } else if position == 3 {
        CellsView::UInt64(rows.map_values(|r: SnapshotRowView| r.size_bytes))
    } else if position == 4 {
        CellsView::UInt32(rows.map_values(|r: SnapshotRowView| r.file_count))
    } else if position == 5 {
        CellsView::UInt32(rows.map_values(|r: SnapshotRowView| r.dir_count))
    } else {
        CellsView::Text(rows.map_values(|r: SnapshotRowView| text_of(r, position)))
    }
}

/// The column of rows at `position`.
pub open spec fn column_of(rows: Seq<SnapshotRowView>, position: int) -> ColumnView {
    ColumnView { name: column_name(position), nullable: true, cells: cells_of(rows, position) }
}

/// The columns of rows: the fifteen of the schema, in its order.
pub open spec fn columns_of(rows: Seq<SnapshotRowView>) -> Seq<ColumnView> {
    Seq::new(COLUMN_COUNT as nat, |position: int| column_of(rows, position))
}

/// The mathematical values of rows.
pub open spec fn views(rows: Seq<SnapshotRow>) -> Seq<SnapshotRowView> {
    rows.map_values(|r: SnapshotRow| r@)
}

fn row_text(row: &SnapshotRow, position: usize) -> (c: &Option<String>)
    ensures
        cell(*c) == text_of(row@, position as int),
{
    if position == 0 {
        &row.path
    } else if position == 1 {
        &row.parent_path
    } else if position == 6 {
        &row.meta_scan_root
    } else if position == 7 {
        &row.meta_started_at
    } else if position == 8 {
        &row.meta_finished_at
    } else if position == 9 {
        &row.meta_size_basis
    } else if position == 10 {
        &row.meta_hardlink_policy
    } else if position == 11 {
        &row.meta_strategy
    } else if position == 12 {
        &row.error_path
    } else if position == 13 {
        &row.error_code
    } else {
        &row.error_message
    }
}

fn cells_in(rows: &[SnapshotRow], position: usize) -> (cells: Cells)
    ensures
        cells@ == cells_of(views(rows@), position as int),
{
    let ghost all = views(rows@);
    let mut text: Vec<Option<String>> = Vec::new();
    let mut small: Vec<Option<u16>> = Vec::new();
    let mut middle: Vec<Option<u32>> = Vec::new();
    let mut large: Vec<Option<u64>> = Vec::new();
    let mut i: usize = 0;
    while i < rows.len()
        invariant
            i <= rows.len(),
            all == views(rows@),
            position == 2 ==> small@ == all.take(i as int).map_values(
                |r: SnapshotRowView| r.depth,
            ),
            position == 3 ==> large@ == all.take(i as int).map_values(
                |r: SnapshotRowView| r.size_bytes,
            ),
            position == 4 ==> middle@ == all.take(i as int).map_values(
                |r: SnapshotRowView| r.file_count,
            ),
            position == 5 ==> middle@ == all.take(i as int).map_values(
                |r: SnapshotRowView| r.dir_count,
            ),
            !(2 <= position <= 5) ==> text@.map_values(|c: Option<String>| cell(c)) == all.take(
                i as int,
            ).map_values(|r: SnapshotRowView| text_of(r, position as int)),
        decreases rows.len() - i,
    {
        let row = &rows[i];
        assert(all[i as int] == row@);
        let ghost before = all.take(i as int);
        assert(all.take(i + 1) =~= before.push(row@));
        if position == 2 {
            small.push(row.depth);
            assert(small@ =~= all.take(i + 1).map_values(|r: SnapshotRowView| r.depth));
        } else if position == 3 {
            large.push(row.size_bytes);
            assert(large@ =~= all.take(i + 1).map_values(|r: SnapshotRowView| r.size_bytes));
        } else if position == 4 {
            middle.push(row.file_count);
            assert(middle@ =~= all.take(i + 1).map_values(|r: SnapshotRowView| r.file_count));
        } else if position == 5 {
            middle.push(row.dir_count);
            assert(middle@ =~= all.take(i + 1).map_values(|r: SnapshotRowView| r.dir_count));
        } else {
            let found = row_text(row, position);
            let copy = match found {
                Some(t) => Some(t.clone()),
                None => None,
            };
            assert(cell(copy) == text_of(row@, position as int));
            let ghost earlier = text@;
            text.push(copy);
            assert(text@ == earlier.push(copy));
            assert(earlier.map_values(|c: Option<String>| cell(c)) == before.map_values(
                |r: SnapshotRowView| text_of(r, position as int),
            ));
            let ghost cells = text@.map_values(|c: Option<String>| cell(c));
            let ghost wanted = all.take(i + 1).map_values(
                |r: SnapshotRowView| text_of(r, position as int),
            );
            assert(earlier.map_values(|c: Option<String>| cell(c)).len() == before.len());
            assert forall|k: int| 0 <= k < cells.len() implies cells[k] == wanted[k] by {
                if k < i {
                    assert(cells[k] == earlier.map_values(|c: Option<String>| cell(c))[k]);
                    assert(wanted[k] == before.map_values(
                        |r: SnapshotRowView| text_of(r, position as int),
                    )[k]);
                }
            }
            assert(cells =~= wanted);
        }
        i += 1;
    }
    assert(all.take(rows.len() as int) =~= all);
    if position == 2 {
        Cells::UInt16(small)
    } else if position == 3 {
        Cells::UInt64(large)
    } else if position == 4 || position == 5 {
        Cells::UInt32(middle)
    } else {
        Cells::Text(text)
    }
}

/// The columns of rows: the fifteen of the schema, in its order.
pub fn columns_in(rows: &[SnapshotRow]) -> (columns: Vec<Column>)
    ensures
        columns.deep_view() == columns_of(views(rows@)),
{
    let ghost all = views(rows@);
    let schema = snapshot_schema();
    let mut columns: Vec<Column> = Vec::new();
    let mut position: usize = 0;
    while position < schema.len()
        invariant
            position <= schema@.len() == COLUMN_COUNT,
            all == views(rows@),
            forall|i: int|
                0 <= i < COLUMN_COUNT ==> (#[trigger] schema@[i]).name@ == column_name(i)
                    && schema@[i].nullable,
            columns@.len() == position,
            forall|i: int| 0 <= i < position ==> (#[trigger] columns@[i])@ == column_of(all, i),
        decreases schema@.len() - position,
    {
        let cells = cells_in(rows, position);
        columns.push(
            Column { name: schema[position].name, nullable: schema[position].nullable, cells },
        );
        position += 1;
    }
    assert(columns.deep_view() =~= columns_of(all));
    columns
}

/// No two columns of the schema bear the same name.
pub proof fn lemma_names_differ()
    ensures
        forall|i: int, j: int|
            0 <= i < j < COLUMN_COUNT ==> #[trigger] column_name(i) != #[trigger] column_name(j),
{
    reveal_strlit("path");
    reveal_strlit("parent_path");
    reveal_strlit("depth");
    reveal_strlit("size_bytes");
    reveal_strlit("file_count");
    reveal_strlit("dir_count");
    reveal_strlit("meta_scan_root");
    reveal_strlit("meta_started_at");
    reveal_strlit("meta_finished_at");
    reveal_strlit("meta_size_basis");
    reveal_strlit("meta_hardlink_policy");
    reveal_strlit("meta_strategy");
    reveal_strlit("error_path");
    reveal_strlit("error_code");
    reveal_strlit("error_message");
    assert forall|i: int, j: int| 0 <= i < j < COLUMN_COUNT implies #[trigger] column_name(i)
        != #[trigger] column_name(j) by {
        let a = column_name(i);
        let b = column_name(j);
        if a.len() == b.len() {
            assert(a[0] != b[0] || a[6] != b[6]);
        }
    }
}

proof fn lemma_text_bytes_grow(cells: Seq<Option<Seq<char>>>, upto: int)
    requires
        0 <= upto <= cells.len(),
    ensures
        text_bytes(cells.take(upto)) <= text_bytes(cells),
    decreases cells.len() - upto,
{
    if upto == cells.len() {
        assert(cells.take(upto) =~= cells);
    } else {
        lemma_text_bytes_grow(cells, upto + 1);
        assert(cells.take(upto + 1).drop_last() =~= cells.take(upto));
    }
}

/// Whether the strings of a column are within [`TEXT_LIMIT`].
fn within(cells: &Vec<Option<String>>) -> (fine: bool)
    ensures
        fine == (text_bytes(cells@.map_values(|c: Option<String>| cell(c))) <= TEXT_LIMIT),
{
    let ghost all = cells@.map_values(|c: Option<String>| cell(c));
    let mut sum: usize = 0;
    let mut i: usize = 0;
    assert(all.take(0) =~= Seq::<Option<Seq<char>>>::empty());
    while i < cells.len()
        invariant
            i <= cells.len(),
            all == cells@.map_values(|c: Option<String>| cell(c)),
            sum == text_bytes(all.take(i as int)),
            sum <= TEXT_LIMIT,
        decreases cells.len() - i,
    {
        proof {
            lemma_text_bytes_grow(all, i + 1);
            assert(all.take(i + 1).drop_last() =~= all.take(i as int));
            assert(all.take(i + 1).last() == cell(cells@[i as int]));
        }
        match &cells[i] {
            Some(s) => {
                let bytes = s.as_str().as_bytes();
                if bytes.len() > TEXT_LIMIT - sum {
                    return false;
                }
                sum = sum + bytes.len();
            },
            None => {},
        }
        i += 1;
    }
    assert(all.take(cells.len() as int) =~= all);
    true
}

/// Why rows do not become a record batch.
#[derive(Debug)]
pub enum BatchFault {
    /// The strings of the column at this place of the schema have more
    /// bytes together than a column takes.
    TooLarge { column: usize },
    /// Arrow refused the columns, with this message.
    Refused(String),
}

/// Whether the column of rows at `position` is one of text with more bytes
/// than a column takes.
pub open spec fn too_large(rows: Seq<SnapshotRowView>, position: int) -> bool {
    cells_of(rows, position) matches CellsView::Text(cells) && text_bytes(cells) > TEXT_LIMIT
}

/// Whether rows fit a record batch: none of their columns is too large.
pub open spec fn fits(rows: Seq<SnapshotRowView>) -> bool {
    forall|position: int| 0 <= position < COLUMN_COUNT ==> !too_large(rows, position)
}

/// Whether a fault is the one that rows are refused with: it names the
/// first of their columns that is too large.
pub open spec fn refused_with(rows: Seq<SnapshotRowView>, fault: BatchFault) -> bool {
    fault matches BatchFault::TooLarge { column } && column < COLUMN_COUNT && too_large(
        rows,
        column as int,
    ) && forall|earlier: int| 0 <= earlier < column ==> !too_large(rows, earlier)
}

/// Whether a record batch holds rows: as many, in the columns of the
/// schema and no others, all of them nullable, every column under its
/// name with the cells of the rows.
pub open spec fn holds_rows(batch: Batch, rows: Seq<SnapshotRowView>) -> bool {
    &&& batch_height(batch) == rows.len()
    &&& batch_names(batch) == Seq::new(COLUMN_COUNT as nat, |position: int| column_name(position))
    &&& batch_nullable(batch) == Seq::new(COLUMN_COUNT as nat, |position: int| true)
    &&& forall|position: int|
        0 <= position < COLUMN_COUNT ==> holds_column(batch, #[trigger] column_of(rows, position))
}

/// The record batch of rows. Rows fit unless the strings of one column
/// have more than [`TEXT_LIMIT`] bytes together; the fault then names the
/// first such column.
pub fn to_batch(rows: &[SnapshotRow]) -> (r: Result<Batch, BatchFault>)
    ensures
        r is Ok <==> fits(views(rows@)),
        r matches Ok(batch) ==> holds_rows(batch, views(rows@)),
        r matches Err(fault) ==> refused_with(views(rows@), fault),
{
    let ghost all = views(rows@);
    let columns = columns_in(rows);
    assert(columns@.len() == columns.deep_view().len());
    let mut position: usize = 0;
    while position < columns.len()
        invariant
            position <= columns@.len() == COLUMN_COUNT,
            all == views(rows@),
            columns.deep_view() == columns_of(all),
            forall|earlier: int| 0 <= earlier < position ==> !too_large(all, earlier),
        decreases columns@.len() - position,
    {
        assert(columns@[position as int]@ == columns.deep_view()[position as int]);
        assert(columns@[position as int]@.cells == cells_of(all, position as int));
        match &columns[position].cells {
            Cells::Text(cells) => {
                assert(columns@[position as int]@.cells == CellsView::Text(
                    cells@.map_values(|c: Option<String>| cell(c)),
                ));
                if !within(cells) {
                    assert(too_large(all, position as int));
                    return Err(BatchFault::TooLarge { column: position });
                }
            },
            _ => {},
        }
        assert(!too_large(all, position as int));
        position += 1;
    }
    proof {
        lemma_names_differ();
        assert(within_limit(columns.deep_view())) by {
            assert forall|i: int| 0 <= i < columns.deep_view().len() implies match (
            #[trigger] columns.deep_view()[i]).cells {
                CellsView::Text(cells) => text_bytes(cells) <= TEXT_LIMIT,
                _ => true,
            } by {
                assert(!too_large(all, i));
            }
        }
        assert(well_shaped(columns.deep_view()));
        assert(distinctly_named(columns.deep_view()));
    }
    match assemble(columns) {
        Ok(batch) => {
            proof {
                assert forall|p: int| 0 <= p < COLUMN_COUNT implies holds_column(
                    batch,
                    #[trigger] column_of(all, p),
                ) by {
                    assert(columns@[p]@ == columns.deep_view()[p]);
                }
                assert(names_of(columns_of(all)) =~= Seq::new(
                    COLUMN_COUNT as nat,
                    |position: int| column_name(position),
                ));
                assert(columns_of(all).map_values(|column: ColumnView| column.nullable)
                    =~= Seq::new(COLUMN_COUNT as nat, |position: int| true));
            }
            Ok(batch)
        },
        Err(e) => Err(BatchFault::Refused(describe_arrow_error(&e))),
    }
}

/// The name of the column at `position`.
pub fn column_label(position: usize) -> (name: &'static str)
    ensures
        name@ == column_name(position as int),
{
    if position == 0 {
        "path"
    } else if position == 1 {
        "parent_path"
    } else if position == 2 {
        "depth"
    } else if position == 3 {
        "size_bytes"
    } else if position == 4 {
        "file_count"
    } else if position == 5 {
        "dir_count"
    } else if position == 6 {
        "meta_scan_root"
    } else if position == 7 {
        "meta_started_at"
    } else if position == 8 {
        "meta_finished_at"
    } else if position == 9 {
        "meta_size_basis"
    } else if position == 10 {
        "meta_hardlink_policy"
    } else if position == 11 {
        "meta_strategy"
    } else if position == 12 {
        "error_path"
    } else if position == 13 {
        "error_code"
    } else {
        "error_message"
    }
}

impl BatchFault {
    /// The message of the fault.
    pub open spec fn text(self) -> Seq<char> {
        match self {
            BatchFault::TooLarge { column } => "Column too large: "@ + column_name(column as int),
            BatchFault::Refused(message) => message@,
        }
    }

    /// The message of the fault.
    pub fn message(&self) -> (text: String)
        ensures
            text@ == self.text(),
    {
        match self {
            BatchFault::TooLarge { column } => joined("Column too large: ", column_label(*column)),
            BatchFault::Refused(message) => message.clone(),
        }
    }
}

/// Why a record batch cannot be read as rows: a column of the schema is
/// not to be had from it.
#[derive(Debug, Clone, Copy, PartialEq, Eq, Structural)]
pub struct ColumnFault {
    /// The place of the column in the schema.
    pub column: usize,
    /// What is wrong with it.
    pub fault: CellFault,
}

impl ColumnFault {
    /// The message of the fault.
    pub open spec fn text(self) -> Seq<char> {
        match self.fault {
            CellFault::MissingColumn => "Missing column: "@ + column_name(self.column as int),
            CellFault::InvalidType => "Invalid type for: "@ + column_name(self.column as int),
        }
    }

    /// The message of the fault.
    pub fn message(&self) -> (text: String)
        ensures
            text@ == self.text(),
    {
        match self.fault {
            CellFault::MissingColumn => joined("Missing column: ", column_label(self.column)),
            CellFault::InvalidType => joined("Invalid type for: ", column_label(self.column)),
        }
    }
}

/// Whether a record batch has the column at `position` of the schema, in
/// the type of the schema.
pub open spec fn is_typed(batch: Batch, position: int) -> bool {
    let name = column_name(position);
    match column_kind(position) {
        ColumnKind::Utf8 => batch_text(batch).dom().contains(name),
        ColumnKind::UInt16 => batch_u16(batch).dom().contains(name),
        ColumnKind::UInt32 => batch_u32(batch).dom().contains(name),
        ColumnKind::UInt64 => batch_u64(batch).dom().contains(name),
    }
}

/// What is wrong with the column at `position` in a record batch, if
/// anything is.
pub open spec fn column_fault(batch: Batch, position: int) -> Option<CellFault> {
    if is_typed(batch, position) {
        None
    } else if batch_names(batch).contains(column_name(position)) {
        Some(CellFault::InvalidType)
    } else {
        Some(CellFault::MissingColumn)
    }
}

/// The first fault among the columns from `from` on, in the order of the
/// schema.
pub open spec fn first_fault(batch: Batch, from: int) -> Option<ColumnFault>
    decreases COLUMN_COUNT - from,
{
    if from < 0 || from >= COLUMN_COUNT {
        None
    } else {
        match column_fault(batch, from) {
            Some(fault) => Some(ColumnFault { column: from as usize, fault }),
            None => first_fault(batch, from + 1),
        }
    }
}

/// The row of a record batch at `row`: the cell of each column of the
/// schema.
pub open spec fn row_held(batch: Batch, row: int) -> SnapshotRowView {
    SnapshotRowView {
        path: batch_text(batch)[column_name(0)][row],
        parent_path: batch_text(batch)[column_name(1)][row],
        depth: batch_u16(batch)[column_name(2)][row],
        size_bytes: batch_u64(batch)[column_name(3)][row],
        file_count: batch_u32(batch)[column_name(4)][row],
        dir_count: batch_u32(batch)[column_name(5)][row],
        meta_scan_root: batch_text(batch)[column_name(6)][row],
        meta_started_at: batch_text(batch)[column_name(7)][row],
        meta_finished_at: batch_text(batch)[column_name(8)][row],
        meta_size_basis: batch_text(batch)[column_name(9)][row],
        meta_hardlink_policy: batch_text(batch)[column_name(10)][row],
        meta_strategy: batch_text(batch)[column_name(11)][row],
        error_path: batch_text(batch)[column_name(12)][row],
        error_code: batch_text(batch)[column_name(13)][row],
        error_message: batch_text(batch)[column_name(14)][row],
    }
}

/// What reading a record batch gives: its rows in order, or the first
/// fault among the columns of the schema. A batch without rows has no
/// cell to be read, and gives no rows whatever its columns are.
pub open spec fn rows_found(batch: Batch) -> Result<Seq<SnapshotRowView>, ColumnFault> {
    if batch_height(batch) == 0 {
        Ok(Seq::empty())
    } else {
        match first_fault(batch, 0) {
            Some(fault) => Err(fault),
            None => Ok(Seq::new(batch_height(batch), |row: int| row_held(batch, row))),
        }
    }
}

fn text_at(batch: &Batch, position: usize, row: usize) -> (r: Result<Option<String>, ColumnFault>)
    requires
        position < COLUMN_COUNT,
        column_kind(position as int) == ColumnKind::Utf8,
        row < batch_height(*batch),
    ensures
        match column_fault(*batch, position as int) {
            Some(fault) => r matches Err(e) && e == (ColumnFault { column: position, fault }),
            None => r matches Ok(c) && cell(c) == batch_text(*batch)[column_name(
                position as int,
            )][row as int],
        },
{
    match text_cell(batch, column_label(position), row) {
        Ok(c) => Ok(c),
        Err(fault) => Err(ColumnFault { column: position, fault }),
    }
}

/// The row of a record batch at `row`, or the first fault among the
/// columns of the schema.
pub fn fetch_row(batch: &Batch, row: usize) -> (r: Result<SnapshotRow, ColumnFault>)
    requires
        row < batch_height(*batch),
    ensures
        match first_fault(*batch, 0) {
            Some(fault) => r matches Err(e) && e == fault,
            None => r matches Ok(found) && found@ == row_held(*batch, row as int),
        },
{
    reveal_with_fuel(first_fault, 16);
    let path = match text_at(batch, 0, row) {
        Ok(c) => c,
        Err(e) => return Err(e),
    };
    let parent_path = match text_at(batch, 1, row) {
        Ok(c) => c,
        Err(e) => return Err(e),
    };
    let depth = match u16_cell(batch, column_label(2), row) {
        Ok(c) => c,
        Err(fault) => return Err(ColumnFault { column: 2, fault }),
    };
    let size_bytes = match u64_cell(batch, column_label(3), row) {
        Ok(c) => c,
        Err(fault) => return Err(ColumnFault { column: 3, fault }),
    };
    let file_count = match u32_cell(batch, column_label(4), row) {
        Ok(c) => c,
        Err(fault) => return Err(ColumnFault { column: 4, fault }),
    };
    let dir_count = match u32_cell(batch, column_label(5), row) {
        Ok(c) => c,
        Err(fault) => return Err(ColumnFault { column: 5, fault }),
    };
    let meta_scan_root = match text_at(batch, 6, row) {
        Ok(c) => c,
        Err(e) => return Err(e),
    };
    let meta_started_at = match text_at(batch, 7, row) {
        Ok(c) => c,
        Err(e) => return Err(e),
    };
    let meta_finished_at = match text_at(batch, 8, row) {
        Ok(c) => c,
        Err(e) => return Err(e),
    };
    let meta_size_basis = match text_at(batch, 9, row) {
        Ok(c) => c,
        Err(e) => return Err(e),
    };
    let meta_hardlink_policy = match text_at(batch, 10, row) {
        Ok(c) => c,
        Err(e) => return Err(e),
    };
    let meta_strategy = match text_at(batch, 11, row) {
        Ok(c) => c,
        Err(e) => return Err(e),
    };
    let error_path = match text_at(batch, 12, row) {
        Ok(c) => c,
        Err(e) => return Err(e),
    };
    let error_code = match text_at(batch, 13, row) {
        Ok(c) => c,
        Err(e) => return Err(e),
    };
    let error_message = match text_at(batch, 14, row) {
        Ok(c) => c,
        Err(e) => return Err(e),
    };
    Ok(
        SnapshotRow {
            path,
            parent_path,
            depth,
            size_bytes,
            file_count,
            dir_count,
            meta_scan_root,
            meta_started_at,
            meta_finished_at,
            meta_size_basis,
            meta_hardlink_policy,
            meta_strategy,
            error_path,
            error_code,
            error_message,
        },
    )
}

/// The rows of a record batch, in order, or the first fault among the
/// columns of the schema.
pub fn to_rows(batch: &Batch) -> (r: Result<Vec<SnapshotRow>, ColumnFault>)
    ensures
        match rows_found(*batch) {
            Ok(rows) => r matches Ok(found) && views(found@) == rows,
            Err(fault) => r matches Err(e) && e == fault,
        },
{
    let height = num_rows(batch);
    let mut rows: Vec<SnapshotRow> = Vec::new();
    let mut row: usize = 0;
    while row < height
        invariant
            row <= height == batch_height(*batch),
            rows@.len() == row,
            row > 0 ==> first_fault(*batch, 0) is None,
            forall|i: int| 0 <= i < row ==> (#[trigger] rows@[i])@ == row_held(*batch, i),
        decreases height - row,
    {
        match fetch_row(batch, row) {
            Ok(found) => rows.push(found),
            Err(e) => return Err(e),
        }
        row += 1;
    }
    proof {
        if height > 0 {
            assert(views(rows@) =~= Seq::new(
                batch_height(*batch),
                |row: int| row_held(*batch, row),
            ));
        } else {
            assert(views(rows@) =~= Seq::<SnapshotRowView>::empty());
        }
    }
    Ok(rows)
}

/// A record batch that holds rows gives them back when it is read.
pub proof fn lemma_batch_round_trip(batch: Batch, rows: Seq<SnapshotRowView>)
    requires
        holds_rows(batch, rows),
    ensures
        rows_found(batch) == Ok::<Seq<SnapshotRowView>, ColumnFault>(rows),
{
    reveal_with_fuel(first_fault, 16);
    assert forall|position: int| 0 <= position < COLUMN_COUNT implies is_typed(
        batch,
        position,
    ) by {
        assert(holds_column(batch, column_of(rows, position)));
    }
    if rows.len() > 0 {
        let found = Seq::new(batch_height(batch), |row: int| row_held(batch, row));
        assert forall|i: int| 0 <= i < rows.len() implies found[i] == rows[i] by {
            assert forall|position: int| 0 <= position < COLUMN_COUNT implies holds_column(
                batch,
                column_of(rows, position),
            ) by {}
            assert(holds_column(batch, column_of(rows, 0)));
            assert(holds_column(batch, column_of(rows, 1)));
            assert(holds_column(batch, column_of(rows, 2)));
            assert(holds_column(batch, column_of(rows, 3)));
            assert(holds_column(batch, column_of(rows, 4)));
            assert(holds_column(batch, column_of(rows, 5)));
            assert(holds_column(batch, column_of(rows, 6)));
            assert(holds_column(batch, column_of(rows, 7)));
            assert(holds_column(batch, column_of(rows, 8)));
            assert(holds_column(batch, column_of(rows, 9)));
            assert(holds_column(batch, column_of(rows, 10)));
            assert(holds_column(batch, column_of(rows, 11)));
            assert(holds_column(batch, column_of(rows, 12)));
            assert(holds_column(batch, column_of(rows, 13)));
            assert(holds_column(batch, column_of(rows, 14)));
        }
        assert(found =~= rows);
    } else {
        assert(rows =~= Seq::<SnapshotRowView>::empty());
    }
}

} // verus!
