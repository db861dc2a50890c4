//! A table of entries keyed by path, the last writer winning.

use vstd::hash_map::StringHashMap;
use vstd::prelude::*;

use crate::models::{DirectoryEntry, DirectoryEntryView};

verus! {

/// `listing` holds the entries kept in `kept`, each once, each under its
/// own path.
pub open spec fn lists_each_once(
    listing: Seq<DirectoryEntryView>,
    kept: Map<Seq<char>, DirectoryEntryView>,
) -> bool {
    &&& forall|i: int|
        0 <= i < listing.len() ==> kept.contains_key((#[trigger] listing[i]).path)
            && kept[listing[i].path] == listing[i]
    &&& forall|p: Seq<char>|
        kept.contains_key(p) ==> exists|i: int|
            0 <= i < listing.len() && (#[trigger] listing[i]).path == p
    &&& forall|i: int, j: int|
        0 <= i < j < listing.len() ==> (#[trigger] listing[i]).path != (#[trigger] listing[j]).path
}

/// Entries keyed by their paths. A path holds the entry that was put under
/// it last.
pub struct EntryTable {
    entries: Vec<DirectoryEntry>,
    index: StringHashMap<usize>,
}

impl View for EntryTable {
    type V = Map<Seq<char>, DirectoryEntryView>;

    closed spec fn view(&self) -> Map<Seq<char>, DirectoryEntryView> {
        Map::new(
            |p: Seq<char>| self.index@.contains_key(p),
            |p: Seq<char>| self.entries@[self.index@[p] as int]@,
        )
    }
}

impl EntryTable {
    /// The consistency of the table: every path leads to its entry and
    /// every entry is found under its path.
    pub closed spec fn well_formed(&self) -> bool {
        &&& forall|p: Seq<char>| #[trigger]
            self.index@.contains_key(p) ==> self.index@[p] < self.entries.len()
                && self.entries@[self.index@[p] as int].path@ == p
        &&& forall|i: int|
            0 <= i < self.entries.len() ==> self.index@.contains_key(
                (#[trigger] self.entries@[i]).path@,
            ) && self.index@[self.entries@[i].path@] == i
    }

    /// The entries in the order in which their paths first came.
    pub closed spec fn rows(&self) -> Seq<DirectoryEntry> {
        self.entries@
    }

    /// The rows of a table list what the table keeps, each entry once.
    pub proof fn lemma_rows_list_the_table(&self)
        requires
            self.well_formed(),
        ensures
            lists_each_once(self.rows().map_values(|e: DirectoryEntry| e@), self@),
            self@.dom().finite(),
            self@.len() == self.rows().len(),
    {
        let listing = self.rows().map_values(|e: DirectoryEntry| e@);
        assert forall|p: Seq<char>| self@.contains_key(p) implies exists|i: int|
            0 <= i < listing.len() && (#[trigger] listing[i]).path == p by {
            let i = self.index@[p] as int;
            assert(listing[i].path == p);
        }
        lemma_listing_counts_the_keys(listing, self@);
    }

    /// Create an empty table.
    #[must_use]
    pub fn new() -> (table: Self)
        ensures
            table.well_formed(),
            table@ == Map::<Seq<char>, DirectoryEntryView>::empty(),
            table.rows().len() == 0,
    {
        let table = EntryTable { entries: Vec::new(), index: StringHashMap::new() };
        assert(table@ =~= Map::<Seq<char>, DirectoryEntryView>::empty());
        table
    }

    /// Create an empty table with room for `capacity` entries.
    #[must_use]
    pub fn with_capacity(capacity: usize) -> (table: Self)
        ensures
            table.well_formed(),
            table@ == Map::<Seq<char>, DirectoryEntryView>::empty(),
            table.rows().len() == 0,
    {
        let table = EntryTable {
            entries: Vec::with_capacity(capacity),
            index: StringHashMap::with_capacity(capacity),
        };
        assert(table@ =~= Map::<Seq<char>, DirectoryEntryView>::empty());
        table
    }

    /// The number of paths in the table.
    pub fn len(&self) -> (n: usize)
        requires
            self.well_formed(),
        ensures
            n == self.rows().len(),
            n == self@.len(),
    {
        proof {
            self.lemma_rows_list_the_table();
        }
        self.entries.len()
    }

    /// Put an entry under its path, in place of the entry that the path
    /// held, if it held one.
    pub fn insert(&mut self, entry: DirectoryEntry)
        requires
            old(self).well_formed(),
        ensures
            final(self).well_formed(),
            final(self)@ == old(self)@.insert(entry.path@, entry@),
    {
        let at = match self.index.get(entry.path.as_str()) {
            Some(position) => Some(*position),
            None => None,
        };
        match at {
            Some(position) => {
                self.entries.set(position, entry);
                proof {
                    assert forall|i: int|
                        0 <= i < self.entries.len() implies self.index@.contains_key(
                        (#[trigger] self.entries@[i]).path@,
                    ) && self.index@[self.entries@[i].path@] == i by {
                        if i != position {
                            assert(self.entries@[i] == old(self).entries@[i]);
                        }
                    }
                    assert forall|p: Seq<char>| #[trigger]
                        self.index@.contains_key(p) implies self.index@[p] < self.entries.len()
                        && self.entries@[self.index@[p] as int].path@ == p by {
                        assert(old(self).index@.contains_key(p));
                    }
                    assert(self@ =~= old(self)@.insert(entry.path@, entry@));
                }
            },
            None => {
                self.index.insert(entry.path.clone(), self.entries.len());
                self.entries.push(entry);
                proof {
                    assert forall|i: int|
                        0 <= i < self.entries.len() implies self.index@.contains_key(
                        (#[trigger] self.entries@[i]).path@,
                    ) && self.index@[self.entries@[i].path@] == i by {
                        if i < old(self).entries.len() {
                            assert(self.entries@[i] == old(self).entries@[i]);
                            assert(old(self).index@.contains_key(old(self).entries@[i].path@));
                        }
                    }
                    assert forall|p: Seq<char>| #[trigger]
                        self.index@.contains_key(p) implies self.index@[p] < self.entries.len()
                        && self.entries@[self.index@[p] as int].path@ == p by {
                        if p != entry.path@ {
                            assert(old(self).index@.contains_key(p));
                        }
                    }
                    assert forall|p: Seq<char>| self@.contains_key(p) implies self@[p] == old(
                        self,
                    )@.insert(entry.path@, entry@)[p] by {
                        if p != entry.path@ {
                            assert(old(self).index@.contains_key(p));
                        }
                    }
                    assert(self@ =~= old(self)@.insert(entry.path@, entry@));
                }
            },
        }
    }

    /// The entries of the table, in the order in which their paths first
    /// came.
    pub fn as_rows(&self) -> (rows: &Vec<DirectoryEntry>)
        ensures
            rows@ == self.rows(),
    {
        &self.entries
    }

    /// Take the table apart into its entries, in the order in which their
    /// paths first came.
    #[must_use]
    pub fn into_rows(self) -> (rows: Vec<DirectoryEntry>)
        requires
            self.well_formed(),
        ensures
            rows@ == self.rows(),
            lists_each_once(rows.deep_view(), self@),
    {
        proof {
            self.lemma_rows_list_the_table();
            assert(self.entries.deep_view() =~= self.rows().map_values(|e: DirectoryEntry| e@));
        }
        self.entries
    }
}

/// A listing that holds each kept entry once is as long as there are keys.
pub proof fn lemma_listing_counts_the_keys(
    listing: Seq<DirectoryEntryView>,
    kept: Map<Seq<char>, DirectoryEntryView>,
)
    requires
        lists_each_once(listing, kept),
    ensures
        kept.dom().finite(),
        kept.len() == listing.len(),
    decreases listing.len(),
{
    if listing.len() == 0 {
        assert(kept.dom() =~= Set::<Seq<char>>::empty());
    } else {
        let last = listing.last();
        let shorter = listing.drop_last();
        let rest = kept.remove(last.path);
        assert forall|p: Seq<char>| rest.contains_key(p) implies exists|i: int|
            0 <= i < shorter.len() && (#[trigger] shorter[i]).path == p by {
            let i = choose|i: int| 0 <= i < listing.len() && (#[trigger] listing[i]).path == p;
            assert(shorter[i] == listing[i]);
        }
        assert forall|i: int| 0 <= i < shorter.len() implies rest.contains_key(
            (#[trigger] shorter[i]).path,
        ) && rest[shorter[i].path] == shorter[i] by {
            assert(shorter[i] == listing[i]);
            assert(listing[i].path != listing[listing.len() - 1].path);
        }
        assert forall|i: int, j: int| 0 <= i < j < shorter.len() implies (#[trigger] shorter[i]).path
            != (#[trigger] shorter[j]).path by {
            assert(shorter[i] == listing[i]);
            assert(shorter[j] == listing[j]);
        }
        lemma_listing_counts_the_keys(shorter, rest);
        assert(kept.contains_key(listing[listing.len() - 1].path));
        assert(kept.dom() =~= rest.dom().insert(last.path));
    }
}

} // verus!
