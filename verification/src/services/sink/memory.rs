//! In-memory sink retaining traversal results for callers that need full
//! materialization.

use vstd::prelude::*;

use super::{counted, ScanSink, SinkFinish};
use crate::models::{
    DirectoryEntry, DirectoryEntryView, ErrorItem, ErrorItemView, SnapshotMeta, SnapshotMetaView,
};
use crate::services::ranking::{
    lemma_ranked_is_ordered_and_stable, lemma_ranking_has_no_twins,
    lemma_ranking_is_an_ordered_permutation, rank_positions, Precedence,
};
use crate::services::table::EntryTable;
use crate::text::{
    lemma_bytes_before_is_asymmetric, lemma_bytes_before_is_connected,
    lemma_bytes_before_is_transitive, lemma_text_before_is_connected, str_before, text_before,
};

verus! {

/// The entry that a sink keeps for each path: the last one received.
pub open spec fn latest_by_path(received: Seq<DirectoryEntryView>) -> Map<
    Seq<char>,
    DirectoryEntryView,
>
    decreases received.len(),
{
    if received.len() == 0 {
        Map::empty()
    } else {
        latest_by_path(received.drop_last()).insert(received.last().path, received.last())
    }
}

/// `listing` holds the entries kept in `kept`, each once, in the order of
/// their paths. There is one such listing for each `kept`.
pub open spec fn lists_in_path_order(
    listing: Seq<DirectoryEntryView>,
    kept: Map<Seq<char>, DirectoryEntryView>,
) -> bool {
    &&& forall|i: int|
        0 <= i < listing.len() ==> kept.contains_key((#[trigger] listing[i]).path)
            && kept[listing[i].path] == listing[i]
    &&& forall|p: Seq<char>|
        kept.contains_key(p) ==> exists|i: int|
            0 <= i < listing.len() && (#[trigger] listing[i]).path == p
    &&& forall|i: int, j: int|
        0 <= i < j < listing.len() ==> text_before(
            (#[trigger] listing[i]).path,
            (#[trigger] listing[j]).path,
        )
}

/// Every entry is kept under its own path.
pub proof fn lemma_latest_is_keyed_by_path(received: Seq<DirectoryEntryView>, p: Seq<char>)
    requires
        latest_by_path(received).contains_key(p),
    ensures
        latest_by_path(received)[p].path == p,
        exists|i: int| 0 <= i < received.len() && received[i] == latest_by_path(received)[p],
    decreases received.len(),
{
    if received.len() > 0 {
        if received.last().path == p {
            assert(received[received.len() - 1] == latest_by_path(received)[p]);
        } else {
            lemma_latest_is_keyed_by_path(received.drop_last(), p);
            let i = choose|i: int|
                0 <= i < received.drop_last().len() && received.drop_last()[i] == latest_by_path(
                    received.drop_last(),
                )[p];
            assert(received[i] == latest_by_path(received)[p]);
        }
    }
}

/// Entries go in the order of their paths.
pub struct ByPath;

impl Precedence<DirectoryEntry> for ByPath {
    open spec fn before(a: DirectoryEntry, b: DirectoryEntry) -> bool {
        text_before(a.path@, b.path@)
    }

    proof fn lemma_asymmetric(a: DirectoryEntry, b: DirectoryEntry) {
        lemma_bytes_before_is_asymmetric(
            vstd::utf8::encode_utf8(a.path@),
            vstd::utf8::encode_utf8(b.path@),
        );
    }

    proof fn lemma_transitive(a: DirectoryEntry, b: DirectoryEntry, c: DirectoryEntry) {
        lemma_bytes_before_is_transitive(
            vstd::utf8::encode_utf8(a.path@),
            vstd::utf8::encode_utf8(b.path@),
            vstd::utf8::encode_utf8(c.path@),
        );
    }

    proof fn lemma_ties_carry_over(a: DirectoryEntry, b: DirectoryEntry, c: DirectoryEntry) {
        let x = vstd::utf8::encode_utf8(a.path@);
        let y = vstd::utf8::encode_utf8(b.path@);
        let z = vstd::utf8::encode_utf8(c.path@);
        if text_before(a.path@, c.path@) {
            if crate::text::bytes_before(y, x) {
                lemma_bytes_before_is_transitive(y, x, z);
            } else {
                lemma_bytes_before_is_connected(x, y);
            }
        }
    }

    fn is_before(a: &DirectoryEntry, b: &DirectoryEntry) -> (r: bool) {
        str_before(a.path.as_str(), b.path.as_str())
    }
}

/// A sink that keeps everything in memory: one entry per path, the last
/// writer winning, and the errors in order of arrival.
pub struct MemorySink {
    table: EntryTable,
    errors: Vec<ErrorItem>,
    entry_count: u64,
    metadata: Option<SnapshotMeta>,
    received: Ghost<Seq<DirectoryEntryView>>,
}

impl MemorySink {
    /// The entries kept, by path.
    pub open spec fn kept(&self) -> Map<Seq<char>, DirectoryEntryView> {
        latest_by_path(self.received())
    }

    /// The metadata provided so far.
    pub closed spec fn metadata_view(&self) -> Option<SnapshotMeta> {
        self.metadata
    }

    /// A sink that holds nothing yet.
    #[must_use]
    pub fn new() -> (sink: Self)
        ensures
            sink.well_formed(),
            sink.reliable(),
            sink.received() == Seq::<DirectoryEntryView>::empty(),
            sink.received_errors() == Seq::<ErrorItemView>::empty(),
            sink.metadata_view() is None,
            sink.noted() is None,
    {
        let sink = MemorySink {
            table: EntryTable::new(),
            errors: Vec::new(),
            entry_count: 0,
            metadata: None,
            received: Ghost(Seq::empty()),
        };
        assert(sink.errors.deep_view() =~= Seq::<ErrorItemView>::empty());
        sink
    }

    /// Finalize the sink: the entries kept, in the order of their paths, the
    /// errors in order of arrival, and the number of entries received.
    pub fn finish_sorted(self) -> (finish: SinkFinish)
        requires
            self.well_formed(),
        ensures
            lists_in_path_order(finish.entries.deep_view(), self.kept()),
            finish.errors.deep_view() == self.received_errors(),
            finish.entry_count == counted(self.received().len()),
    {
        let ghost kept = self.kept();
        let rows = self.table.into_rows();
        let positions = rank_positions::<DirectoryEntry, ByPath>(&rows);
        let mut sorted: Vec<DirectoryEntry> = Vec::new();
        let mut k: usize = 0;
        while k < positions.len()
            invariant
                k <= positions.len(),
                positions@.len() == rows@.len(),
                forall|m: int| 0 <= m < positions.len() ==> (#[trigger] positions[m]) < rows.len(),
                sorted@.len() == k,
                forall|m: int| 0 <= m < k ==> (#[trigger] sorted@[m]) == rows@[positions@[m] as int],
            decreases positions.len() - k,
        {
            sorted.push(rows[positions[k]].clone());
            k += 1;
        }
        proof {
            let listing = sorted.deep_view();
            let items = rows@;
            let unsorted = rows.deep_view();
            lemma_ranking_is_an_ordered_permutation::<DirectoryEntry, ByPath>(items);
            assert forall|i: int| 0 <= i < items.len() implies unsorted[i] == (#[trigger] items[i])@ by {}
            assert forall|i: int| 0 <= i < listing.len() implies listing[i] == (
            #[trigger] sorted@[i])@ by {}
            assert forall|i: int| 0 <= i < listing.len() implies kept.contains_key(
                (#[trigger] listing[i]).path,
            ) && kept[listing[i].path] == listing[i] by {
                assert(sorted@[i] == items[positions@[i] as int]);
                assert(listing[i] == unsorted[positions@[i] as int]);
            }
            assert forall|p: Seq<char>| kept.contains_key(p) implies exists|i: int|
                0 <= i < listing.len() && (#[trigger] listing[i]).path == p by {
                let at = choose|at: int| 0 <= at < unsorted.len() && (#[trigger] unsorted[at]).path == p;
                assert(positions@.contains(at as usize));
                let i = choose|i: int| 0 <= i < positions@.len() && positions@[i] == at as usize;
                assert(sorted@[i] == items[at]);
                assert(listing[i] == unsorted[at]);
            }
            assert forall|i: int, j: int| 0 <= i < j < listing.len() implies text_before(
                (#[trigger] listing[i]).path,
                (#[trigger] listing[j]).path,
            ) by {
                lemma_ranked_is_ordered_and_stable::<DirectoryEntry, ByPath>(items, i, j);
                lemma_ranking_has_no_twins::<DirectoryEntry, ByPath>(items, i, j);
                let x = positions@[i] as int;
                let y = positions@[j] as int;
                let a = items[x];
                let b = items[y];
                assert(sorted@[i] == a);
                assert(sorted@[j] == b);
                assert(unsorted[x].path == a.path@);
                assert(unsorted[y].path == b.path@);
                if x < y {
                    assert(unsorted[x].path != unsorted[y].path);
                } else {
                    assert(unsorted[y].path != unsorted[x].path);
                }
                if !text_before(a.path@, b.path@) {
                    lemma_text_before_is_connected(a.path@, b.path@);
                }
            }
        }
        SinkFinish::new(sorted, self.errors, self.entry_count)
    }
}

impl Default for MemorySink {
    fn default() -> (sink: Self)
        ensures
            sink.well_formed(),
            sink.reliable(),
            sink.received() == Seq::<DirectoryEntryView>::empty(),
            sink.received_errors() == Seq::<ErrorItemView>::empty(),
    {
        MemorySink::new()
    }
}

impl ScanSink for MemorySink {
    closed spec fn well_formed(&self) -> bool {
        &&& self.entry_count == counted(self.received@.len())
        &&& self.table.well_formed()
        &&& self.table@ == latest_by_path(self.received@)
    }

    open spec fn reliable(&self) -> bool {
        true
    }

    closed spec fn received(&self) -> Seq<DirectoryEntryView> {
        self.received@
    }

    closed spec fn received_errors(&self) -> Seq<ErrorItemView> {
        self.errors.deep_view()
    }

    closed spec fn noted(&self) -> Option<SnapshotMetaView> {
        match self.metadata {
            Some(meta) => Some(meta@),
            None => None,
        }
    }

    fn record_entry(&mut self, entry: DirectoryEntry) -> (r: Result<(), std::io::Error>)
        ensures
            final(self).metadata_view() == old(self).metadata_view(),
    {
        let ghost before = self.received@;
        let ghost view = entry@;
        proof {
            assert(before.push(view).drop_last() =~= before);
        }
        self.entry_count = self.entry_count.saturating_add(1);
        self.received = Ghost(before.push(view));
        self.table.insert(entry);
        Ok(())
    }

    fn record_error(&mut self, error: ErrorItem) -> (r: Result<(), std::io::Error>)
        ensures
            final(self).metadata_view() == old(self).metadata_view(),
    {
        let ghost before = self.errors.deep_view();
        let ghost view = error@;
        self.errors.push(error);
        assert(self.errors.deep_view() =~= before.push(view));
        Ok(())
    }

    fn set_metadata(&mut self, meta: &SnapshotMeta) -> (r: Result<(), std::io::Error>)
        ensures
            final(self).metadata_view() matches Some(kept) && kept@ == meta@,
    {
        self.metadata = Some(meta.clone());
        Ok(())
    }

    fn finish(self) -> (r: Result<SinkFinish, std::io::Error>)
        ensures
            r matches Ok(finish) && lists_in_path_order(finish.entries.deep_view(), self.kept()),
    {
        Ok(self.finish_sorted())
    }
}

} // verus!
