//! Streaming aggregation for computing directory totals, and the ranking
//! of entries for display.

use vstd::prelude::*;

use crate::models::{DirectoryEntry, DirectoryEntryView};
use crate::services::ranking::{
    lemma_ranked_is_ordered_and_stable, lemma_ranking_has_no_twins,
    lemma_ranking_is_an_ordered_permutation, picked, rank_positions, ranked, ranking, Precedence,
};
use crate::services::table::{lists_each_once, EntryTable};
use crate::services::traverse::rules::sat_add;

verus! {

/// Sort entries by a specified field.
#[derive(Debug, Clone, Copy, PartialEq, Eq, Structural)]
pub enum SortBy {
    Size,
    Files,
    Dirs,
}

/// Entry classification used when folding traversal shards.
#[derive(Debug, Clone, Copy, PartialEq, Eq, Structural)]
pub enum EntryKind {
    File,
    Directory,
}

/// Aggregated totals accumulated across traversal threads. Every counter
/// stops at `u64::MAX`.
#[derive(Debug, Clone, Copy, PartialEq, Eq, Structural)]
pub struct AggregateTotals {
    pub size_bytes: u64,
    pub files: u64,
    pub directories: u64,
}

impl Default for AggregateTotals {
    fn default() -> (totals: Self)
        ensures
            totals == AggregateTotals::zero(),
    {
        AggregateTotals { size_bytes: 0, files: 0, directories: 0 }
    }
}

impl AggregateTotals {
    /// Totals of nothing.
    pub open spec fn zero() -> AggregateTotals {
        AggregateTotals { size_bytes: 0, files: 0, directories: 0 }
    }

    /// The totals with one more file of `size_bytes` bytes.
    pub open spec fn with_file(self, size_bytes: u64) -> AggregateTotals {
        AggregateTotals {
            size_bytes: sat_add(self.size_bytes, size_bytes),
            files: sat_add(self.files, 1),
            directories: self.directories,
        }
    }

    /// The totals with one more directory of `size_bytes` bytes.
    pub open spec fn with_directory(self, size_bytes: u64) -> AggregateTotals {
        AggregateTotals {
            size_bytes: sat_add(self.size_bytes, size_bytes),
            files: self.files,
            directories: sat_add(self.directories, 1),
        }
    }

    /// The totals with one more entry of the given kind.
    pub open spec fn with_entry(self, size_bytes: u64, kind: EntryKind) -> AggregateTotals {
        match kind {
            EntryKind::File => self.with_file(size_bytes),
            EntryKind::Directory => self.with_directory(size_bytes),
        }
    }

    /// The sum of two totals.
    pub open spec fn merged(self, other: AggregateTotals) -> AggregateTotals {
        AggregateTotals {
            size_bytes: sat_add(self.size_bytes, other.size_bytes),
            files: sat_add(self.files, other.files),
            directories: sat_add(self.directories, other.directories),
        }
    }

    /// Record a file contribution.
    pub fn record_file(&mut self, size_bytes: u64)
        ensures
            *final(self) == old(self).with_file(size_bytes),
    {
        self.size_bytes = self.size_bytes.saturating_add(size_bytes);
        self.files = self.files.saturating_add(1);
    }

    /// Record a directory contribution.
    pub fn record_directory(&mut self, size_bytes: u64)
        ensures
            *final(self) == old(self).with_directory(size_bytes),
    {
        self.size_bytes = self.size_bytes.saturating_add(size_bytes);
        self.directories = self.directories.saturating_add(1);
    }

    /// Merge another totals snapshot into this one.
    pub fn merge(&mut self, other: &AggregateTotals)
        ensures
            *final(self) == old(self).merged(*other),
    {
        self.size_bytes = self.size_bytes.saturating_add(other.size_bytes);
        self.files = self.files.saturating_add(other.files);
        self.directories = self.directories.saturating_add(other.directories);
    }
}

/// Merging totals does not depend on the order.
pub proof fn lemma_merge_commutes(a: AggregateTotals, b: AggregateTotals)
    ensures
        a.merged(b) == b.merged(a),
{
}

/// Merging totals does not depend on the grouping.
pub proof fn lemma_merge_is_associative(a: AggregateTotals, b: AggregateTotals, c: AggregateTotals)
    ensures
        a.merged(b).merged(c) == a.merged(b.merged(c)),
{
}

/// What a shard holds: its entries by path, and its totals.
pub struct ShardView {
    pub entries: Map<Seq<char>, DirectoryEntryView>,
    pub totals: AggregateTotals,
}

/// Thread-local shard used by parallel traversal to accumulate entries and
/// totals.
pub struct DirectoryShard {
    entries: EntryTable,
    totals: AggregateTotals,
}

impl View for DirectoryShard {
    type V = ShardView;

    closed spec fn view(&self) -> ShardView {
        ShardView { entries: self.entries@, totals: self.totals }
    }
}

impl Default for DirectoryShard {
    fn default() -> (shard: Self)
        ensures
            shard.well_formed(),
            shard@ == (ShardView { entries: Map::empty(), totals: AggregateTotals::zero() }),
    {
        DirectoryShard { entries: EntryTable::new(), totals: AggregateTotals::default() }
    }
}

/// The entries kept once the first `upto` of `rows` have been put, in
/// order, into a table that kept `base`.
pub open spec fn absorbed(
    base: Map<Seq<char>, DirectoryEntryView>,
    rows: Seq<DirectoryEntryView>,
    upto: int,
) -> Map<Seq<char>, DirectoryEntryView>
    decreases upto,
{
    if upto <= 0 || upto > rows.len() {
        base
    } else {
        absorbed(base, rows, upto - 1).insert(rows[upto - 1].path, rows[upto - 1])
    }
}

proof fn lemma_absorbed_is_keyed(
    base: Map<Seq<char>, DirectoryEntryView>,
    rows: Seq<DirectoryEntryView>,
    upto: int,
    p: Seq<char>,
)
    requires
        0 <= upto <= rows.len(),
        forall|i: int, j: int|
            0 <= i < j < rows.len() ==> (#[trigger] rows[i]).path != (#[trigger] rows[j]).path,
    ensures
        absorbed(base, rows, upto).contains_key(p) <==> base.contains_key(p) || exists|i: int|
            0 <= i < upto && (#[trigger] rows[i]).path == p,
        forall|i: int|
            0 <= i < upto && (#[trigger] rows[i]).path == p ==> absorbed(base, rows, upto)[p]
                == rows[i],
        (forall|i: int| 0 <= i < upto ==> (#[trigger] rows[i]).path != p) ==> absorbed(
            base,
            rows,
            upto,
        )[p] == base[p],
    decreases upto,
{
    if upto > 0 {
        lemma_absorbed_is_keyed(base, rows, upto - 1, p);
        if rows[upto - 1].path == p {
            assert(absorbed(base, rows, upto)[p] == rows[upto - 1]);
        } else {
            if exists|i: int| 0 <= i < upto && (#[trigger] rows[i]).path == p {
                let i = choose|i: int| 0 <= i < upto && (#[trigger] rows[i]).path == p;
                assert(i < upto - 1);
            }
        }
    }
}

/// Putting the entries of one table into another, one by one, gives the
/// union of the two in which the entries put win.
pub proof fn lemma_absorbing_a_listing_is_union(
    base: Map<Seq<char>, DirectoryEntryView>,
    rows: Seq<DirectoryEntryView>,
    other: Map<Seq<char>, DirectoryEntryView>,
)
    requires
        lists_each_once(rows, other),
    ensures
        absorbed(base, rows, rows.len() as int) == base.union_prefer_right(other),
{
    let all = absorbed(base, rows, rows.len() as int);
    let union = base.union_prefer_right(other);
    assert forall|p: Seq<char>| all.contains_key(p) == union.contains_key(p) by {
        lemma_absorbed_is_keyed(base, rows, rows.len() as int, p);
        if other.contains_key(p) {
            let i = choose|i: int| 0 <= i < rows.len() && (#[trigger] rows[i]).path == p;
            assert(rows[i].path == p);
        }
    }
    assert forall|p: Seq<char>| all.contains_key(p) implies all[p] == union[p] by {
        lemma_absorbed_is_keyed(base, rows, rows.len() as int, p);
        if other.contains_key(p) {
            let i = choose|i: int| 0 <= i < rows.len() && (#[trigger] rows[i]).path == p;
            assert(all[p] == rows[i]);
        } else {
            assert forall|i: int| 0 <= i < rows.len() implies (#[trigger] rows[i]).path != p by {
                assert(other.contains_key(rows[i].path));
            }
        }
    }
    assert(all =~= union);
}

impl DirectoryShard {
    /// The consistency of the shard.
    pub closed spec fn well_formed(&self) -> bool {
        self.entries.well_formed()
    }

    /// Create an empty shard with optional capacity hint.
    #[must_use]
    pub fn with_capacity(capacity: usize) -> (shard: Self)
        ensures
            shard.well_formed(),
            shard@ == (ShardView { entries: Map::empty(), totals: AggregateTotals::zero() }),
    {
        Self { entries: EntryTable::with_capacity(capacity), totals: AggregateTotals::default() }
    }

    /// Insert or replace an entry while accounting for its classification.
    pub fn absorb_entry(&mut self, entry: DirectoryEntry, kind: EntryKind)
        requires
            old(self).well_formed(),
        ensures
            final(self).well_formed(),
            final(self)@ == (ShardView {
                entries: old(self)@.entries.insert(entry.path@, entry@),
                totals: old(self)@.totals.with_entry(entry.size_bytes, kind),
            }),
    {
        match kind {
            EntryKind::File => self.totals.record_file(entry.size_bytes),
            EntryKind::Directory => self.totals.record_directory(entry.size_bytes),
        }
        self.entries.insert(entry);
    }

    /// Extend the shard with a batch of entries.
    pub fn extend(&mut self, entries: Vec<(DirectoryEntry, EntryKind)>)
        requires
            old(self).well_formed(),
        ensures
            final(self).well_formed(),
            final(self)@ == extended(old(self)@, entries@, entries@.len() as int),
    {
        let mut batch = entries;
        let ghost all = batch@;
        assert(all.len() == batch.len());
        let mut taken: Vec<(DirectoryEntry, EntryKind)> = Vec::new();
        // The batch is gone through from its end; turning it round first
        // keeps the order of arrival.
        while batch.len() > 0
            invariant
                self.well_formed(),
                self@ == old(self)@,
                batch@.len() + taken@.len() == all.len(),
                all.len() <= usize::MAX,
                forall|i: int| 0 <= i < batch@.len() ==> batch@[i] == all[i],
                forall|i: int|
                    0 <= i < taken@.len() ==> (#[trigger] taken@[i]) == all[all.len() - 1 - i],
            decreases batch.len(),
        {
            let item = batch.pop().unwrap();
            taken.push(item);
        }
        let ghost n = all.len() as int;
        let mut done: usize = 0;
        while taken.len() > 0
            invariant
                self.well_formed(),
                done + taken@.len() == n,
                n == all.len(),
                n <= usize::MAX,
                forall|i: int|
                    0 <= i < taken@.len() ==> (#[trigger] taken@[i]) == all[all.len() - 1 - i],
                self@ == extended(old(self)@, all, done as int),
            decreases taken.len(),
        {
            let (entry, kind) = taken.pop().unwrap();
            assert((entry, kind) == all[done as int]);
            self.absorb_entry(entry, kind);
            done += 1;
        }
    }

    /// Combine another shard into this one, consuming the source. Where
    /// both hold a path, the entry of the source wins.
    pub fn merge_in_place(&mut self, other: DirectoryShard)
        requires
            old(self).well_formed(),
            other.well_formed(),
        ensures
            final(self).well_formed(),
            final(self)@ == old(self)@.merged(other@),
    {
        self.totals.merge(&other.totals);
        let ghost kept = other.entries@;
        let rows = other.entries.into_rows();
        let ghost views = rows.deep_view();
        let mut i: usize = 0;
        while i < rows.len()
            invariant
                i <= rows.len(),
                views == rows.deep_view(),
                self.well_formed(),
                self.totals == old(self).totals.merged(other.totals),
                self.entries@ == absorbed(old(self).entries@, views, i as int),
            decreases rows.len() - i,
        {
            assert(views[i as int] == rows@[i as int]@);
            self.entries.insert(rows[i].clone());
            i += 1;
        }
        proof {
            lemma_absorbing_a_listing_is_union(old(self).entries@, views, kept);
        }
    }

    /// Consume the shard and return its entries, each path once, and its
    /// totals.
    #[must_use]
    pub fn into_parts(self) -> (parts: (Vec<DirectoryEntry>, AggregateTotals))
        requires
            self.well_formed(),
        ensures
            lists_each_once(parts.0.deep_view(), self@.entries),
            parts.1 == self@.totals,
    {
        (self.entries.into_rows(), self.totals)
    }

    /// Borrow the current totals without consuming the shard.
    #[must_use]
    pub fn totals(&self) -> (totals: &AggregateTotals)
        ensures
            *totals == self@.totals,
    {
        &self.totals
    }

    /// The totals of the shard, the entries being dropped.
    #[must_use]
    pub fn into_totals(self) -> (totals: AggregateTotals)
        ensures
            totals == self@.totals,
    {
        self.totals
    }
}

impl From<DirectoryShard> for AggregateTotals {
    fn from(shard: DirectoryShard) -> (totals: Self) {
        shard.into_totals()
    }
}

impl vstd::std_specs::convert::FromSpecImpl<DirectoryShard> for AggregateTotals {
    open spec fn obeys_from_spec() -> bool {
        true
    }

    open spec fn from_spec(shard: DirectoryShard) -> AggregateTotals {
        shard@.totals
    }
}

impl ShardView {
    /// The union of two shards: of two entries with one path that of
    /// `other` is kept, and the totals add up.
    pub open spec fn merged(self, other: ShardView) -> ShardView {
        ShardView {
            entries: self.entries.union_prefer_right(other.entries),
            totals: self.totals.merged(other.totals),
        }
    }
}

/// A shard after it has absorbed the first `upto` entries of a batch.
pub open spec fn extended(
    shard: ShardView,
    batch: Seq<(DirectoryEntry, EntryKind)>,
    upto: int,
) -> ShardView
    decreases upto,
{
    if upto <= 0 || upto > batch.len() {
        shard
    } else {
        let before = extended(shard, batch, upto - 1);
        let (entry, kind) = batch[upto - 1];
        ShardView {
            entries: before.entries.insert(entry.path@, entry@),
            totals: before.totals.with_entry(entry.size_bytes, kind),
        }
    }
}

/// The first `upto` shards merged, one after the other, into an empty one.
pub open spec fn consolidated(shards: Seq<ShardView>, upto: int) -> ShardView
    decreases upto,
{
    if upto <= 0 || upto > shards.len() {
        ShardView { entries: Map::empty(), totals: AggregateTotals::zero() }
    } else {
        consolidated(shards, upto - 1).merged(shards[upto - 1])
    }
}

/// The values of the shards.
pub open spec fn shard_views(shards: Seq<DirectoryShard>) -> Seq<ShardView> {
    shards.map_values(|s: DirectoryShard| s@)
}

/// Whether every shard is consistent.
pub open spec fn all_well_formed(shards: Seq<DirectoryShard>) -> bool {
    forall|i: int| 0 <= i < shards.len() ==> (#[trigger] shards[i]).well_formed()
}

/// Consolidate multiple shards produced by parallel traversal into a single
/// set of entries and totals.
#[must_use]
pub fn consolidate_shards(shards: Vec<DirectoryShard>) -> (parts: (
    Vec<DirectoryEntry>,
    AggregateTotals,
))
    requires
        all_well_formed(shards@),
    ensures
        lists_each_once(
            parts.0.deep_view(),
            consolidated(shard_views(shards@), shards@.len() as int).entries,
        ),
        parts.1 == consolidated(shard_views(shards@), shards@.len() as int).totals,
{
    let ghost all = shard_views(shards@);
    assert(shards@.len() == shards.len());
    let mut rest = shards;
    let mut reversed: Vec<DirectoryShard> = Vec::new();
    while rest.len() > 0
        invariant
            all == shard_views(shards@),
            rest@.len() + reversed@.len() == shards@.len(),
            shards@.len() <= usize::MAX,
            forall|i: int| 0 <= i < rest@.len() ==> rest@[i] == shards@[i],
            forall|i: int|
                0 <= i < reversed@.len() ==> (#[trigger] reversed@[i]) == shards@[shards@.len() - 1
                    - i],
        decreases rest.len(),
    {
        let shard = rest.pop().unwrap();
        reversed.push(shard);
    }
    let mut accumulator = DirectoryShard::default();
    let mut done: usize = 0;
    while reversed.len() > 0
        invariant
            all == shard_views(shards@),
            all_well_formed(shards@),
            done + reversed@.len() == shards@.len(),
            shards@.len() <= usize::MAX,
            forall|i: int|
                0 <= i < reversed@.len() ==> (#[trigger] reversed@[i]) == shards@[shards@.len() - 1
                    - i],
            accumulator.well_formed(),
            accumulator@ == consolidated(all, done as int),
        decreases reversed.len(),
    {
        let shard = reversed.pop().unwrap();
        assert(shard == shards@[done as int]);
        assert(all[done as int] == shard@);
        accumulator.merge_in_place(shard);
        done += 1;
    }
    accumulator.into_parts()
}

/// Entries with more bytes go first.
pub struct BySize;

/// Entries with more files go first.
pub struct ByFiles;

/// Entries with more subdirectories go first.
pub struct ByDirs;

impl Precedence<DirectoryEntry> for BySize {
    open spec fn before(a: DirectoryEntry, b: DirectoryEntry) -> bool {
        a.size_bytes > b.size_bytes
    }

    proof fn lemma_asymmetric(a: DirectoryEntry, b: DirectoryEntry) {
    }

    proof fn lemma_transitive(a: DirectoryEntry, b: DirectoryEntry, c: DirectoryEntry) {
    }

    proof fn lemma_ties_carry_over(a: DirectoryEntry, b: DirectoryEntry, c: DirectoryEntry) {
    }

    fn is_before(a: &DirectoryEntry, b: &DirectoryEntry) -> (r: bool) {
        a.size_bytes > b.size_bytes
    }
}

impl Precedence<DirectoryEntry> for ByFiles {
    open spec fn before(a: DirectoryEntry, b: DirectoryEntry) -> bool {
        a.file_count > b.file_count
    }

    proof fn lemma_asymmetric(a: DirectoryEntry, b: DirectoryEntry) {
    }

    proof fn lemma_transitive(a: DirectoryEntry, b: DirectoryEntry, c: DirectoryEntry) {
    }

    proof fn lemma_ties_carry_over(a: DirectoryEntry, b: DirectoryEntry, c: DirectoryEntry) {
    }

    fn is_before(a: &DirectoryEntry, b: &DirectoryEntry) -> (r: bool) {
        a.file_count > b.file_count
    }
}

impl Precedence<DirectoryEntry> for ByDirs {
    open spec fn before(a: DirectoryEntry, b: DirectoryEntry) -> bool {
        a.dir_count > b.dir_count
    }

    proof fn lemma_asymmetric(a: DirectoryEntry, b: DirectoryEntry) {
    }

    proof fn lemma_transitive(a: DirectoryEntry, b: DirectoryEntry, c: DirectoryEntry) {
    }

    proof fn lemma_ties_carry_over(a: DirectoryEntry, b: DirectoryEntry, c: DirectoryEntry) {
    }

    fn is_before(a: &DirectoryEntry, b: &DirectoryEntry) -> (r: bool) {
        a.dir_count > b.dir_count
    }
}

/// The entries ranked by a field, greatest first, entries that are equal in
/// the field staying in the order in which they came.
pub open spec fn ranked_by(entries: Seq<DirectoryEntry>, sort_by: SortBy) -> Seq<DirectoryEntry> {
    match sort_by {
        SortBy::Size => ranked::<DirectoryEntry, BySize>(entries),
        SortBy::Files => ranked::<DirectoryEntry, ByFiles>(entries),
        SortBy::Dirs => ranked::<DirectoryEntry, ByDirs>(entries),
    }
}

/// The field by which entries are ranked.
pub open spec fn sort_key(entry: DirectoryEntry, sort_by: SortBy) -> int {
    match sort_by {
        SortBy::Size => entry.size_bytes as int,
        SortBy::Files => entry.file_count as int,
        SortBy::Dirs => entry.dir_count as int,
    }
}

/// The number of entries that a limit lets through.
pub open spec fn limited(len: nat, top_k: Option<usize>) -> int {
    match top_k {
        Some(k) => if k < len {
            k as int
        } else {
            len as int
        },
        None => len as int,
    }
}

fn pick(entries: &Vec<DirectoryEntry>, positions: &Vec<usize>, limit: usize) -> (out: Vec<
    DirectoryEntry,
>)
    requires
        limit <= positions.len(),
        forall|k: int| 0 <= k < positions.len() ==> (#[trigger] positions[k]) < entries.len(),
    ensures
        out@ == picked(entries@, positions@).take(limit as int),
{
    let mut out: Vec<DirectoryEntry> = Vec::new();
    let mut i: usize = 0;
    while i < limit
        invariant
            i <= limit <= positions.len(),
            forall|k: int| 0 <= k < positions.len() ==> (#[trigger] positions[k]) < entries.len(),
            out@ == picked(entries@, positions@).take(i as int),
        decreases limit - i,
    {
        out.push(entries[positions[i]].clone());
        assert(out@ =~= picked(entries@, positions@).take(i + 1));
        i += 1;
    }
    out
}

/// Sort and limit entries to top K.
#[must_use]
pub fn sort_and_limit(entries: Vec<DirectoryEntry>, sort_by: SortBy, top_k: Option<usize>) -> (out:
    Vec<DirectoryEntry>)
    ensures
        out@ == ranked_by(entries@, sort_by).take(limited(entries@.len(), top_k)),
{
    let positions = match sort_by {
        SortBy::Size => rank_positions::<DirectoryEntry, BySize>(&entries),
        SortBy::Files => rank_positions::<DirectoryEntry, ByFiles>(&entries),
        SortBy::Dirs => rank_positions::<DirectoryEntry, ByDirs>(&entries),
    };
    let limit = match top_k {
        Some(k) => if k < entries.len() {
            k
        } else {
            entries.len()
        },
        None => entries.len(),
    };
    pick(&entries, &positions, limit)
}

/// Ranked entries hold the entries that came, each once; they are in
/// order of the field, greatest first; and of two entries equal in the
/// field the one that came first stands first.
pub proof fn lemma_ranked_by_is_a_stable_descending_order(
    entries: Seq<DirectoryEntry>,
    sort_by: SortBy,
    a: int,
    b: int,
)
    requires
        entries.len() <= usize::MAX,
        0 <= a < b < entries.len(),
    ensures
        ranked_by(entries, sort_by).len() == entries.len(),
        sort_key(ranked_by(entries, sort_by)[a], sort_by) >= sort_key(
            ranked_by(entries, sort_by)[b],
            sort_by,
        ),
        exists|x: int, y: int|
            0 <= x < entries.len() && 0 <= y < entries.len() && x != y && entries[x] == ranked_by(
                entries,
                sort_by,
            )[a] && entries[y] == ranked_by(entries, sort_by)[b] && (sort_key(entries[x], sort_by)
                == sort_key(entries[y], sort_by) ==> x < y),
{
    match sort_by {
        SortBy::Size => {
            lemma_ranking_is_an_ordered_permutation::<DirectoryEntry, BySize>(entries);
            lemma_ranked_is_ordered_and_stable::<DirectoryEntry, BySize>(entries, a, b);
            lemma_ranking_has_no_twins::<DirectoryEntry, BySize>(entries, a, b);
            let x = ranking::<DirectoryEntry, BySize>(entries)[a] as int;
            let y = ranking::<DirectoryEntry, BySize>(entries)[b] as int;
            assert(entries[x] == ranked_by(entries, sort_by)[a]);
            assert(entries[y] == ranked_by(entries, sort_by)[b]);
        },
        SortBy::Files => {
            lemma_ranking_is_an_ordered_permutation::<DirectoryEntry, ByFiles>(entries);
            lemma_ranked_is_ordered_and_stable::<DirectoryEntry, ByFiles>(entries, a, b);
            lemma_ranking_has_no_twins::<DirectoryEntry, ByFiles>(entries, a, b);
            let x = ranking::<DirectoryEntry, ByFiles>(entries)[a] as int;
            let y = ranking::<DirectoryEntry, ByFiles>(entries)[b] as int;
            assert(entries[x] == ranked_by(entries, sort_by)[a]);
            assert(entries[y] == ranked_by(entries, sort_by)[b]);
        },
        SortBy::Dirs => {
            lemma_ranking_is_an_ordered_permutation::<DirectoryEntry, ByDirs>(entries);
            lemma_ranked_is_ordered_and_stable::<DirectoryEntry, ByDirs>(entries, a, b);
            lemma_ranking_has_no_twins::<DirectoryEntry, ByDirs>(entries, a, b);
            let x = ranking::<DirectoryEntry, ByDirs>(entries)[a] as int;
            let y = ranking::<DirectoryEntry, ByDirs>(entries)[b] as int;
            assert(entries[x] == ranked_by(entries, sort_by)[a]);
            assert(entries[y] == ranked_by(entries, sort_by)[b]);
        },
    }
}

/// Whether an entry is an immediate child of the directory stored as
/// `parent_path` at `parent_depth`.
pub open spec fn is_child_of(entry: DirectoryEntryView, parent_path: Seq<char>, parent_depth: u16)
    -> bool {
    entry.depth == parent_depth + 1 && entry.parent_path == Some(parent_path)
}

/// The immediate children of a directory among the first `upto` entries,
/// in the order in which they stand.
pub open spec fn children_among(
    all: Seq<DirectoryEntry>,
    upto: int,
    parent_path: Seq<char>,
    parent_depth: u16,
) -> Seq<DirectoryEntry>
    decreases upto,
{
    if upto <= 0 || upto > all.len() {
        Seq::empty()
    } else if is_child_of(all[upto - 1]@, parent_path, parent_depth) {
        children_among(all, upto - 1, parent_path, parent_depth).push(all[upto - 1])
    } else {
        children_among(all, upto - 1, parent_path, parent_depth)
    }
}

/// Get immediate children of a directory (depth = `parent_depth` + 1).
#[must_use]
pub fn get_immediate_children(
    all_entries: &[DirectoryEntry],
    parent_path: &str,
    parent_depth: u16,
) -> (children: Vec<DirectoryEntry>)
    ensures
        children@ == children_among(
            all_entries@,
            all_entries@.len() as int,
            parent_path@,
            parent_depth,
        ),
{
    let mut children: Vec<DirectoryEntry> = Vec::new();
    if parent_depth == u16::MAX {
        assert forall|k: int| 0 <= k <= all_entries@.len() implies #[trigger] children_among(
            all_entries@,
            k,
            parent_path@,
            parent_depth,
        ) == Seq::<DirectoryEntry>::empty() by {
            lemma_no_children_beyond_the_last_depth(all_entries@, k, parent_path@);
        }
        return children;
    }
    let target_depth = parent_depth + 1;
    let wanted = parent_path.to_owned();
    let mut i: usize = 0;
    while i < all_entries.len()
        invariant
            i <= all_entries.len(),
            target_depth == parent_depth + 1,
            wanted@ == parent_path@,
            children@ == children_among(all_entries@, i as int, parent_path@, parent_depth),
        decreases all_entries.len() - i,
    {
        let entry = &all_entries[i];
        let is_child = entry.depth == target_depth && match &entry.parent_path {
            Some(p) => *p == wanted,
            None => false,
        };
        if is_child {
            children.push(entry.clone());
        }
        i += 1;
    }
    children
}

proof fn lemma_no_children_beyond_the_last_depth(
    all: Seq<DirectoryEntry>,
    upto: int,
    parent_path: Seq<char>,
)
    ensures
        children_among(all, upto, parent_path, u16::MAX) == Seq::<DirectoryEntry>::empty(),
    decreases upto,
{
    if 0 < upto <= all.len() {
        lemma_no_children_beyond_the_last_depth(all, upto - 1, parent_path);
    }
}

} // verus!
