//! Scan sinks: the consumers of traversal output.

use vstd::prelude::*;

use crate::models::{
    DirectoryEntry, DirectoryEntryView, ErrorItem, ErrorItemView, SnapshotMeta, SnapshotMetaView,
};

verus! {

/// Aggregated result returned by a sink after traversal completes.
pub struct SinkFinish {
    pub entries: Vec<DirectoryEntry>,
    pub errors: Vec<ErrorItem>,
    pub entry_count: u64,
}

impl SinkFinish {
    /// Put the result of a sink together.
    #[must_use]
    pub fn new(entries: Vec<DirectoryEntry>, errors: Vec<ErrorItem>, entry_count: u64) -> (finish:
        Self)
        ensures
            finish.entries == entries,
            finish.errors == errors,
            finish.entry_count == entry_count,
    {
        Self { entries, errors, entry_count }
    }
}

impl Default for SinkFinish {
    fn default() -> (finish: Self)
        ensures
            finish.entries@.len() == 0,
            finish.errors@.len() == 0,
            finish.entry_count == 0,
    {
        Self { entries: Vec::new(), errors: Vec::new(), entry_count: 0 }
    }
}

/// The number of records as a sink counts them: it stops at `u64::MAX`.
pub open spec fn counted(n: nat) -> u64 {
    if n > u64::MAX as nat {
        u64::MAX
    } else {
        n as u64
    }
}

/// Trait implemented by traversal sinks that receive entries and errors.
///
/// A sink may vouch for itself: a reliable sink never fails and holds
/// exactly what it was given, in the order in which it came. The sinks of
/// this crate that implement the trait are reliable, and proved to be. Of a
/// sink that does not vouch for itself nothing is taken for granted, but
/// that it does not begin to vouch for itself later.
pub trait ScanSink: Sized {
    /// Whether the sink never fails and accounts for what it receives.
    open spec fn reliable(&self) -> bool {
        false
    }

    /// The internal consistency of a reliable sink.
    open spec fn well_formed(&self) -> bool {
        true
    }

    /// The entries that a reliable sink has accepted, in order of arrival.
    open spec fn received(&self) -> Seq<DirectoryEntryView> {
        Seq::empty()
    }

    /// The errors that a reliable sink has accepted, in order of arrival.
    open spec fn received_errors(&self) -> Seq<ErrorItemView> {
        Seq::empty()
    }

    /// The metadata that a reliable sink holds: the one it was given last,
    /// if it was given any.
    open spec fn noted(&self) -> Option<SnapshotMetaView> {
        None
    }

    /// Record a directory entry produced during traversal.
    fn record_entry(&mut self, entry: DirectoryEntry) -> (r: Result<(), std::io::Error>)
        requires
            old(self).reliable() ==> old(self).well_formed(),
        ensures
            final(self).reliable() == old(self).reliable(),
            old(self).reliable() ==> {
                &&& r is Ok
                &&& final(self).well_formed()
                &&& final(self).received() == old(self).received().push(entry@)
                &&& final(self).received_errors() == old(self).received_errors()
                &&& final(self).noted() == old(self).noted()
            },
    ;

    /// Record an error encountered during traversal.
    fn record_error(&mut self, error: ErrorItem) -> (r: Result<(), std::io::Error>)
        requires
            old(self).reliable() ==> old(self).well_formed(),
        ensures
            final(self).reliable() == old(self).reliable(),
            old(self).reliable() ==> {
                &&& r is Ok
                &&& final(self).well_formed()
                &&& final(self).received_errors() == old(self).received_errors().push(error@)
                &&& final(self).received() == old(self).received()
                &&& final(self).noted() == old(self).noted()
            },
    ;

    /// Provide snapshot metadata prior to finalization. A reliable sink
    /// holds the metadata from then on, in place of what it held.
    fn set_metadata(&mut self, meta: &SnapshotMeta) -> (r: Result<(), std::io::Error>)
        requires
            old(self).reliable() ==> old(self).well_formed(),
        ensures
            final(self).reliable() == old(self).reliable(),
            old(self).reliable() ==> {
                &&& r is Ok
                &&& final(self).well_formed()
                &&& final(self).received() == old(self).received()
                &&& final(self).received_errors() == old(self).received_errors()
                &&& final(self).noted() == Some(meta@)
            },
    ;

    /// Finalize the sink once traversal completes. The count of entries is
    /// authoritative whether or not the entries themselves are handed back.
    fn finish(self) -> (r: Result<SinkFinish, std::io::Error>)
        requires
            self.reliable() ==> self.well_formed(),
        ensures
            self.reliable() ==> (r matches Ok(finish) && finish.entry_count == counted(
                self.received().len(),
            ) && finish.errors.deep_view() == self.received_errors()),
    ;
}

} // verus!

pub mod memory;
pub mod parquet;
