//! Streaming sink: entries leave in row groups while the scan runs, so that
//! the whole tree is never held in memory.
//!
//! The sink decides what is written and when; it hands the row groups to
//! its caller, who writes them to the snapshot file in the order in which
//! they come.

use vstd::prelude::*;

use super::{counted, SinkFinish};
use crate::io::rows::{
    rows_of_entries, rows_of_errors, rows_of_metadata, entry_row, error_row,
    metadata_row, meta_view, rows_of, written, SnapshotRow, SnapshotRowView,
};
use crate::models::{
    DirectoryEntry, DirectoryEntryView, ErrorItem, ErrorItemView, SnapshotMeta, SnapshotMetaView,
};

verus! {

/// Default number of entries buffered before a row group leaves.
pub const DEFAULT_BUFFER_CAPACITY: usize = 4_096;

/// The capacity that a request gives: the default where none is asked for,
/// and never less than one.
pub open spec fn capacity_of(requested: Option<usize>) -> usize {
    match requested {
        Some(n) => if n < 1 {
            1
        } else {
            n
        },
        None => DEFAULT_BUFFER_CAPACITY,
    }
}

/// Why a streaming sink cannot finish.
#[derive(Debug, Clone, Copy, PartialEq, Eq, Structural)]
pub enum StreamFault {
    /// No metadata was provided before the sink was finished.
    MissingMetadata,
}

impl StreamFault {
    /// The message of the fault.
    pub fn message(&self) -> (text: &'static str)
        ensures
            text@ == "snapshot metadata must be provided before finishing the Parquet sink"@,
    {
        "snapshot metadata must be provided before finishing the Parquet sink"
    }
}

/// What a streaming sink is made of.
pub struct StreamView {
    /// The number of entries at which the buffer leaves as a row group.
    pub capacity: usize,
    /// The entries that have left in row groups, in order.
    pub flushed: Seq<DirectoryEntryView>,
    /// The entries that wait in the buffer, in order.
    pub buffered: Seq<DirectoryEntryView>,
    /// The errors recorded, in order.
    pub errors: Seq<ErrorItemView>,
    /// The metadata, once provided.
    pub metadata: Option<SnapshotMetaView>,
}

impl StreamView {
    /// Every entry received, in order.
    pub open spec fn received(self) -> Seq<DirectoryEntryView> {
        self.flushed + self.buffered
    }

    /// The rows that have left so far.
    pub open spec fn rows_out(self) -> Seq<SnapshotRowView> {
        self.flushed.map_values(|e: DirectoryEntryView| entry_row(e))
    }
}

/// Sink that streams entries into row groups of a snapshot.
pub struct ParquetStreamSink {
    buffer: Vec<DirectoryEntry>,
    buffer_capacity: usize,
    errors: Vec<ErrorItem>,
    entry_count: u64,
    metadata: Option<SnapshotMeta>,
    flushed: Ghost<Seq<DirectoryEntryView>>,
}

impl View for ParquetStreamSink {
    type V = StreamView;

    closed spec fn view(&self) -> StreamView {
        StreamView {
            capacity: self.buffer_capacity,
            flushed: self.flushed@,
            buffered: self.buffer.deep_view(),
            errors: self.errors.deep_view(),
            metadata: meta_view(self.metadata),
        }
    }
}

impl ParquetStreamSink {
    /// The consistency of the sink: the buffer is below its capacity, and
    /// the count is that of the entries received.
    pub closed spec fn well_formed(&self) -> bool {
        &&& self.buffer_capacity >= 1
        &&& self.buffer@.len() < self.buffer_capacity
        &&& self.entry_count == counted(self.flushed@.len() + self.buffer@.len())
    }

    /// Whether the buffer is below its capacity.
    pub proof fn lemma_buffer_is_below_capacity(&self)
        requires
            self.well_formed(),
        ensures
            self@.capacity >= 1,
            self@.buffered.len() < self@.capacity,
    {
    }

    /// Create a streaming sink whose row groups hold `buffer_capacity`
    /// entries: 4096 where none is given, and at least one.
    #[must_use]
    pub fn try_new(buffer_capacity: Option<usize>) -> (sink: Self)
        ensures
            sink.well_formed(),
            sink@ == (StreamView {
                capacity: capacity_of(buffer_capacity),
                flushed: Seq::empty(),
                buffered: Seq::empty(),
                errors: Seq::empty(),
                metadata: None,
            }),
    {
        let capacity = match buffer_capacity {
            Some(n) => if n < 1 {
                1
            } else {
                n
            },
            None => DEFAULT_BUFFER_CAPACITY,
        };
        let sink = ParquetStreamSink {
            buffer: Vec::new(),
            buffer_capacity: capacity,
            errors: Vec::new(),
            entry_count: 0,
            metadata: None,
            flushed: Ghost(Seq::empty()),
        };
        assert(sink.buffer.deep_view() =~= Seq::<DirectoryEntryView>::empty());
        assert(sink.errors.deep_view() =~= Seq::<ErrorItemView>::empty());
        sink
    }

    /// The entries of the buffer leave as one row group; an empty buffer
    /// gives none.
    pub fn flush_entries(&mut self) -> (group: Option<Vec<SnapshotRow>>)
        requires
            old(self).well_formed(),
        ensures
            final(self).well_formed(),
            final(self)@ == (StreamView {
                flushed: old(self)@.received(),
                buffered: Seq::empty(),
                ..old(self)@
            }),
            group is Some <==> old(self)@.buffered.len() > 0,
            group matches Some(rows) ==> rows.deep_view() == old(self)@.buffered.map_values(
                |e: DirectoryEntryView| entry_row(e),
            ),
    {
        if self.buffer.len() == 0 {
            assert(self@.buffered =~= Seq::<DirectoryEntryView>::empty());
            assert(self@.flushed + self@.buffered =~= self@.flushed);
            return None;
        }
        let rows = rows_of_entries(self.buffer.as_slice());
        proof {
            assert(self.buffer@.map_values(|e: DirectoryEntry| entry_row(e@))
                =~= self.buffer.deep_view().map_values(|e: DirectoryEntryView| entry_row(e)));
        }
        self.flushed = Ghost(self.flushed@ + self.buffer.deep_view());
        self.buffer.clear();
        assert(self.buffer.deep_view() =~= Seq::<DirectoryEntryView>::empty());
        Some(rows)
    }

    /// Record an entry. Once the buffer holds as many entries as its
    /// capacity, they leave as a row group, which is the result.
    pub fn record_entry(&mut self, entry: DirectoryEntry) -> (group: Option<Vec<SnapshotRow>>)
        requires
            old(self).well_formed(),
        ensures
            final(self).well_formed(),
            final(self)@.received() == old(self)@.received().push(entry@),
            final(self)@.capacity == old(self)@.capacity,
            final(self)@.errors == old(self)@.errors,
            final(self)@.metadata == old(self)@.metadata,
            group is Some <==> old(self)@.buffered.len() + 1 >= old(self)@.capacity,
            group is None ==> final(self)@.flushed == old(self)@.flushed,
            group matches Some(rows) ==> final(self)@.buffered.len() == 0 && rows.deep_view()
                == old(self)@.buffered.push(entry@).map_values(
                |e: DirectoryEntryView| entry_row(e),
            ),
    {
        let ghost view = entry@;
        let ghost before = self.buffer.deep_view();
        self.entry_count = self.entry_count.saturating_add(1);
        self.buffer.push(entry);
        assert(self.buffer.deep_view() =~= before.push(view));
        if self.buffer.len() >= self.buffer_capacity {
            let rows = rows_of_entries(self.buffer.as_slice());
            proof {
                assert(self.buffer@.map_values(|e: DirectoryEntry| entry_row(e@))
                    =~= self.buffer.deep_view().map_values(|e: DirectoryEntryView| entry_row(e)));
            }
            self.flushed = Ghost(self.flushed@ + self.buffer.deep_view());
            self.buffer.clear();
            assert(self.buffer.deep_view() =~= Seq::<DirectoryEntryView>::empty());
            assert(self@.received() =~= old(self)@.received().push(view));
            Some(rows)
        } else {
            assert(self@.received() =~= old(self)@.received().push(view));
            None
        }
    }

    /// Record an error; errors leave when the sink is finished.
    pub fn record_error(&mut self, error: ErrorItem)
        requires
            old(self).well_formed(),
        ensures
            final(self).well_formed(),
            final(self)@ == (StreamView { errors: old(self)@.errors.push(error@), ..old(self)@ }),
    {
        let ghost before = self.errors.deep_view();
        let ghost view = error@;
        self.errors.push(error);
        assert(self.errors.deep_view() =~= before.push(view));
    }

    /// Provide the metadata of the snapshot; the last one provided counts.
    pub fn set_metadata(&mut self, meta: &SnapshotMeta)
        requires
            old(self).well_formed(),
        ensures
            final(self).well_formed(),
            final(self)@ == (StreamView { metadata: Some(meta@), ..old(self)@ }),
    {
        self.metadata = Some(meta.clone());
    }

    /// Finish the sink. The row groups that are left come first in the
    /// result: the entries of the buffer, where there are any, then the
    /// errors, where there are any, then the metadata. Without metadata the
    /// sink fails, the other groups having left all the same. A sink that
    /// finishes hands back no entries, for they have all left; its count of
    /// them is authoritative.
    pub fn finish(self) -> (done: (Vec<Vec<SnapshotRow>>, Result<SinkFinish, StreamFault>))
        requires
            self.well_formed(),
        ensures
            done.1 is Ok <==> self@.metadata is Some,
            done.1 matches Err(f) ==> f == StreamFault::MissingMetadata && rows_of(
                done.0.deep_view(),
            ) == self@.buffered.map_values(|e: DirectoryEntryView| entry_row(e))
                + self@.errors.map_values(|e: ErrorItemView| error_row(e)),
            done.1 matches Ok(finish) ==> {
                &&& self@.rows_out() + rows_of(done.0.deep_view()) == written(
                    self@.metadata->0,
                    self@.received(),
                    self@.errors,
                )
                &&& finish.entries@.len() == 0
                &&& finish.errors.deep_view() == self@.errors
                &&& finish.entry_count == counted(self@.received().len())
            },
    {
        let ghost buffered_rows = self@.buffered.map_values(|e: DirectoryEntryView| entry_row(e));
        let ghost error_rows = self@.errors.map_values(|e: ErrorItemView| error_row(e));
        let mut groups: Vec<Vec<SnapshotRow>> = Vec::new();
        assert(rows_of(groups.deep_view()) =~= Seq::<SnapshotRowView>::empty());
        if self.buffer.len() > 0 {
            let batch = rows_of_entries(self.buffer.as_slice());
            let ghost before = groups.deep_view();
            groups.push(batch);
            proof {
                assert(self.buffer@.map_values(|e: DirectoryEntry| entry_row(e@))
                    =~= buffered_rows);
                assert(groups.deep_view() =~= before.push(buffered_rows));
                assert(groups.deep_view().drop_last() =~= before);
            }
        }
        assert(rows_of(groups.deep_view()) =~= buffered_rows);
        if self.errors.len() > 0 {
            let batch = rows_of_errors(self.errors.as_slice());
            let ghost before = groups.deep_view();
            groups.push(batch);
            proof {
                assert(self.errors@.map_values(|e: ErrorItem| error_row(e@)) =~= error_rows);
                assert(groups.deep_view() =~= before.push(error_rows));
                assert(groups.deep_view().drop_last() =~= before);
            }
        }
        assert(rows_of(groups.deep_view()) =~= buffered_rows + error_rows);
        match &self.metadata {
            None => (groups, Err(StreamFault::MissingMetadata)),
            Some(meta) => {
                let batch = rows_of_metadata(meta);
                let ghost before = groups.deep_view();
                groups.push(batch);
                proof {
                    assert(groups.deep_view() =~= before.push(seq![metadata_row(meta@)]));
                    assert(groups.deep_view().drop_last() =~= before);
                    assert(self@.rows_out() + (buffered_rows + error_rows + seq![
                        metadata_row(meta@),
                    ]) =~= written(meta@, self@.received(), self@.errors));
                }
                (groups, Ok(SinkFinish::new(Vec::new(), self.errors, self.entry_count)))
            },
        }
    }
}

} // verus!
