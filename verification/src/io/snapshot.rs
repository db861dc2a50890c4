//! Snapshots as record batches: what is written to a snapshot file, row
//! group by row group, and what is read from one.
//!
//! The file itself is the caller's matter: it writes the batches that it
//! gets here, in their order, and hands back the batches that it reads.

use vstd::prelude::*;

use crate::io::batch::{
    fits, holds_rows, lemma_batch_round_trip, refused_with, rows_found, to_batch, to_rows, views,
    Batch, BatchFault, ColumnFault,
};
use crate::io::rows::{
    entry_row, error_row, groups_written, lemma_groups_hold_the_rows,
    lemma_reading_in_two_parts, lemma_snapshot_round_trip, metadata_row, read_rows, row_groups,
    rows_of, rows_of_entries, rows_of_errors, rows_of_metadata, Reading, SnapshotFault,
    SnapshotReader, SnapshotRowView,
};
use crate::models::{
    DirectoryEntry, DirectoryEntryView, ErrorItem, ErrorItemView, SnapshotMeta, SnapshotMetaView,
};
use vstd::string::*;

pub use crate::io::rows::snapshot_schema;

verus! {

/// The rows of entries.
pub open spec fn rows_for_entries(entries: Seq<DirectoryEntry>) -> Seq<SnapshotRowView> {
    entries.map_values(|e: DirectoryEntry| entry_row(e@))
}

/// The rows of errors.
pub open spec fn rows_for_errors(errors: Seq<ErrorItem>) -> Seq<SnapshotRowView> {
    errors.map_values(|e: ErrorItem| error_row(e@))
}

/// The record batch of a group of entries: one row for each entry, in
/// order, the columns of the other clusters null.
pub fn create_entries_batch(entries: &[DirectoryEntry]) -> (r: Result<Batch, BatchFault>)
    ensures
        r is Ok <==> fits(rows_for_entries(entries@)),
        r matches Ok(batch) ==> holds_rows(batch, rows_for_entries(entries@)),
        r matches Err(fault) ==> refused_with(rows_for_entries(entries@), fault),
{
    let rows = rows_of_entries(entries);
    assert(views(rows@) =~= rows.deep_view());
    to_batch(rows.as_slice())
}

/// The record batch of a group of errors: one row for each error, in
/// order, the columns of the other clusters null.
pub fn create_errors_batch(errors: &[ErrorItem]) -> (r: Result<Batch, BatchFault>)
    ensures
        r is Ok <==> fits(rows_for_errors(errors@)),
        r matches Ok(batch) ==> holds_rows(batch, rows_for_errors(errors@)),
        r matches Err(fault) ==> refused_with(rows_for_errors(errors@), fault),
{
    let rows = rows_of_errors(errors);
    assert(views(rows@) =~= rows.deep_view());
    to_batch(rows.as_slice())
}

/// The record batch of the metadata: its single row.
pub fn create_metadata_batch(meta: &SnapshotMeta) -> (r: Result<Batch, BatchFault>)
    ensures
        r is Ok <==> fits(seq![metadata_row(meta@)]),
        r matches Ok(batch) ==> holds_rows(batch, seq![metadata_row(meta@)]),
        r matches Err(fault) ==> refused_with(seq![metadata_row(meta@)], fault),
{
    let rows = rows_of_metadata(meta);
    assert(views(rows@) =~= rows.deep_view());
    to_batch(rows.as_slice())
}

/// Whether record batches hold row groups, batch for group.
pub open spec fn hold_groups(batches: Seq<Batch>, groups: Seq<Seq<SnapshotRowView>>) -> bool {
    &&& batches.len() == groups.len()
    &&& forall|g: int| 0 <= g < groups.len() ==> holds_rows(#[trigger] batches[g], groups[g])
}

/// Whether row groups are refused at the group `at` with a fault: the
/// groups before it fit, and it is refused with the fault.
pub open spec fn refused_at(
    groups: Seq<Seq<SnapshotRowView>>,
    at: int,
    fault: BatchFault,
) -> bool {
    &&& 0 <= at < groups.len()
    &&& forall|g: int| 0 <= g < at ==> fits(#[trigger] groups[g])
    &&& refused_with(groups[at], fault)
}

/// The values of entries.
pub open spec fn entry_views(entries: Seq<DirectoryEntry>) -> Seq<DirectoryEntryView> {
    entries.map_values(|e: DirectoryEntry| e@)
}

/// The values of errors.
pub open spec fn error_views(errors: Seq<ErrorItem>) -> Seq<ErrorItemView> {
    errors.map_values(|e: ErrorItem| e@)
}

/// The record batches of a snapshot, in the order in which they are
/// written to its file: the entries, where there are any; the errors, where
/// there are any; the metadata. Where a group does not fit a record
/// batch, nothing is to be written.
pub fn write_snapshot(meta: &SnapshotMeta, entries: &[DirectoryEntry], errors: &[ErrorItem]) -> (r:
    Result<Vec<Batch>, BatchFault>)
    ensures
        r is Ok <==> forall|g: int|
            0 <= g < groups_written(meta@, entry_views(entries@), error_views(errors@)).len()
                ==> fits(
                #[trigger] groups_written(meta@, entry_views(entries@), error_views(errors@))[g],
            ),
        r matches Ok(batches) ==> hold_groups(
            batches@,
            groups_written(meta@, entry_views(entries@), error_views(errors@)),
        ),
        r matches Err(fault) ==> exists|at: int| #[trigger]
            refused_at(
                groups_written(meta@, entry_views(entries@), error_views(errors@)),
                at,
                fault,
            ),
{
    let ghost wanted = groups_written(meta@, entry_views(entries@), error_views(errors@));
    let groups = row_groups(meta, entries, errors);
    assert(groups@.len() == groups.deep_view().len());
    let mut batches: Vec<Batch> = Vec::new();
    let mut g: usize = 0;
    while g < groups.len()
        invariant
            g <= groups@.len(),
            wanted == groups_written(meta@, entry_views(entries@), error_views(errors@)),
            groups@.len() == wanted.len(),
            groups.deep_view() == wanted,
            batches@.len() == g,
            forall|h: int| 0 <= h < g ==> fits(#[trigger] wanted[h]),
            forall|h: int| 0 <= h < g ==> holds_rows(#[trigger] batches@[h], wanted[h]),
        decreases groups@.len() - g,
    {
        let group = &groups[g];
        assert(views(group@) =~= group.deep_view());
        assert(group.deep_view() == groups.deep_view()[g as int]);
        match to_batch(group.as_slice()) {
            Ok(batch) => batches.push(batch),
            Err(fault) => {
                assert(refused_at(wanted, g as int, fault));
                assert(!fits(wanted[g as int]));
                return Err(fault);
            },
        }
        g += 1;
    }
    Ok(batches)
}

/// Why a snapshot cannot be read from its record batches.
#[derive(Debug, Clone, Copy, PartialEq, Eq, Structural)]
pub enum ReadFault {
    /// A record batch lacks a column of the schema.
    Column(ColumnFault),
    /// The rows are not those of a snapshot.
    Rows(SnapshotFault),
}

impl ReadFault {
    /// The message of the fault.
    pub open spec fn text(self) -> Seq<char> {
        match self {
            ReadFault::Column(fault) => fault.text(),
            ReadFault::Rows(fault) => fault.text(),
        }
    }

    /// The message of the fault.
    pub fn message(&self) -> (text: String)
        ensures
            text@ == self.text(),
    {
        match self {
            ReadFault::Column(fault) => fault.message(),
            ReadFault::Rows(fault) => fault.message().to_owned(),
        }
    }
}

/// The reading after one more record batch: its rows are taken from it,
/// and then read in their order.
pub open spec fn read_batch(reading: Reading, batch: Batch) -> Result<Reading, ReadFault> {
    match rows_found(batch) {
        Err(fault) => Err(ReadFault::Column(fault)),
        Ok(rows) => match read_rows(reading, rows, rows.len() as int) {
            Err(fault) => Err(ReadFault::Rows(fault)),
            Ok(after) => Ok(after),
        },
    }
}

/// The reading after the first `upto` of the record batches, or the first
/// fault.
pub open spec fn read_batches(reading: Reading, batches: Seq<Batch>, upto: int) -> Result<
    Reading,
    ReadFault,
>
    decreases upto,
{
    if upto <= 0 || upto > batches.len() {
        Ok(reading)
    } else {
        match read_batches(reading, batches, upto - 1) {
            Ok(before) => read_batch(before, batches[upto - 1]),
            Err(fault) => Err(fault),
        }
    }
}

/// What the record batches of a snapshot hold: its metadata, entries and
/// errors; or what is wrong with them.
pub open spec fn snapshot_in(batches: Seq<Batch>) -> Result<
    (SnapshotMetaView, Seq<DirectoryEntryView>, Seq<ErrorItemView>),
    ReadFault,
> {
    match read_batches(Reading::nothing(), batches, batches.len() as int) {
        Err(fault) => Err(fault),
        Ok(reading) => match reading.meta {
            None => Err(ReadFault::Rows(SnapshotFault::NoMetadata)),
            Some(meta) => Ok((meta, reading.entries, reading.errors)),
        },
    }
}

/// Once a fault is met, reading further record batches does not undo it.
pub proof fn lemma_a_batch_fault_stays(reading: Reading, batches: Seq<Batch>, at: int, upto: int)
    requires
        0 <= at <= upto <= batches.len(),
        read_batches(reading, batches, at) is Err,
    ensures
        read_batches(reading, batches, upto) == read_batches(reading, batches, at),
    decreases upto - at,
{
    if at < upto {
        lemma_a_batch_fault_stays(reading, batches, at, upto - 1);
    }
}

/// Read a snapshot from the record batches of its file, taken in their
/// order.
pub fn read_snapshot(batches: &[Batch]) -> (r: Result<
    (SnapshotMeta, Vec<DirectoryEntry>, Vec<ErrorItem>),
    ReadFault,
>)
    ensures
        match r {
            Ok(parts) => snapshot_in(batches@) == Ok::<
                (SnapshotMetaView, Seq<DirectoryEntryView>, Seq<ErrorItemView>),
                ReadFault,
            >((parts.0@, parts.1.deep_view(), parts.2.deep_view())),
            Err(fault) => snapshot_in(batches@) == Err::<
                (SnapshotMetaView, Seq<DirectoryEntryView>, Seq<ErrorItemView>),
                ReadFault,
            >(fault),
        },
{
    let mut reader = SnapshotReader::new();
    let mut b: usize = 0;
    while b < batches.len()
        invariant
            b <= batches@.len(),
            read_batches(Reading::nothing(), batches@, b as int) == Ok::<Reading, ReadFault>(
                reader@,
            ),
        decreases batches@.len() - b,
    {
        let rows = match to_rows(&batches[b]) {
            Ok(rows) => rows,
            Err(fault) => {
                proof {
                    lemma_a_batch_fault_stays(
                        Reading::nothing(),
                        batches@,
                        b + 1,
                        batches@.len() as int,
                    );
                }
                return Err(ReadFault::Column(fault));
            },
        };
        assert(views(rows@) =~= rows.deep_view());
        match reader.read_batch(rows.as_slice()) {
            Ok(()) => {},
            Err(fault) => {
                proof {
                    lemma_a_batch_fault_stays(
                        Reading::nothing(),
                        batches@,
                        b + 1,
                        batches@.len() as int,
                    );
                }
                return Err(ReadFault::Rows(fault));
            },
        }
        b += 1;
    }
    match reader.finish() {
        Ok(parts) => Ok(parts),
        Err(fault) => Err(ReadFault::Rows(fault)),
    }
}

proof fn lemma_reading_held_groups(
    reading: Reading,
    batches: Seq<Batch>,
    groups: Seq<Seq<SnapshotRowView>>,
    upto: int,
)
    requires
        hold_groups(batches, groups),
        0 <= upto <= groups.len(),
    ensures
        read_batches(reading, batches, upto) == match read_rows(
            reading,
            rows_of(groups.take(upto)),
            rows_of(groups.take(upto)).len() as int,
        ) {
            Ok(after) => Ok::<Reading, ReadFault>(after),
            Err(fault) => Err::<Reading, ReadFault>(ReadFault::Rows(fault)),
        },
    decreases upto,
{
    if upto == 0 {
        assert(groups.take(0) =~= Seq::<Seq<SnapshotRowView>>::empty());
    } else {
        lemma_reading_held_groups(reading, batches, groups, upto - 1);
        let before = rows_of(groups.take(upto - 1));
        let group = groups[upto - 1];
        assert(groups.take(upto).drop_last() =~= groups.take(upto - 1));
        assert(groups.take(upto).last() == group);
        assert(rows_of(groups.take(upto)) == before + group);
        lemma_batch_round_trip(batches[upto - 1], group);
        lemma_reading_in_two_parts(reading, before, group, group.len() as int);
    }
}

/// A snapshot read back from the record batches in which it was written
/// is the snapshot: the entries and the errors in their order, and the
/// metadata without the excluded paths, which are not written. An entry
/// with an empty path would not be read back, so the entries are to have
/// paths.
pub proof fn lemma_written_snapshot_reads_back(
    batches: Seq<Batch>,
    meta: SnapshotMetaView,
    entries: Seq<DirectoryEntryView>,
    errors: Seq<ErrorItemView>,
)
    requires
        hold_groups(batches, groups_written(meta, entries, errors)),
        forall|i: int| 0 <= i < entries.len() ==> (#[trigger] entries[i]).path.len() > 0,
    ensures
        snapshot_in(batches) == Ok::<
            (SnapshotMetaView, Seq<DirectoryEntryView>, Seq<ErrorItemView>),
            ReadFault,
        >((SnapshotMetaView { excludes: Seq::empty(), ..meta }, entries, errors)),
{
    let groups = groups_written(meta, entries, errors);
    lemma_reading_held_groups(Reading::nothing(), batches, groups, groups.len() as int);
    assert(groups.take(groups.len() as int) =~= groups);
    lemma_groups_hold_the_rows(meta, entries, errors);
    lemma_snapshot_round_trip(meta, entries, errors);
}

} // verus!
