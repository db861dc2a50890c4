//! What the view shows: which entries are expanded, and how far.
//!
//! Rendering is the caller's matter; the plan of what is rendered is here.

use vstd::prelude::*;

use crate::models::DirectoryEntry;
use crate::services::aggregate::{
    children_among, get_immediate_children, ranked_by, sort_and_limit, SortBy,
};

verus! {

/// Strategy for determining whether to preview (expand) a directory's
/// children.
///
/// A strategy may describe itself: its three answers are then the ones
/// that its descriptions give, and the lines of a view can be told in
/// advance. Of a strategy that does not describe itself nothing is taken
/// for granted.
pub trait PreviewStrategy {
    /// Whether the strategy answers as its descriptions say.
    open spec fn described(&self) -> bool {
        false
    }

    /// Whether a described strategy expands the entry.
    open spec fn previews(
        &self,
        entry: DirectoryEntry,
        parent_size: u64,
        root_size: u64,
        rank: usize,
        depth: u16,
    ) -> bool {
        false
    }

    /// The depth to which a described strategy previews.
    open spec fn preview_depth(&self) -> u16 {
        0
    }

    /// The number of children that a described strategy shows per parent.
    open spec fn children_shown(&self) -> usize {
        0
    }

    /// Determine if this entry should be expanded to show its children.
    ///
    /// `parent_size` is the size of the parent directory, `root_size` the
    /// size of the root, `rank` the rank of the entry among its siblings
    /// (counted from one), `depth` the depth in the displayed tree.
    fn should_preview(
        &self,
        entry: &DirectoryEntry,
        parent_size: u64,
        root_size: u64,
        rank: usize,
        depth: u16,
    ) -> (expand: bool)
        ensures
            self.described() ==> expand == self.previews(
                *entry,
                parent_size,
                root_size,
                rank,
                depth,
            ),
    ;

    /// Maximum depth to preview.
    fn max_preview_depth(&self) -> (depth: u16)
        ensures
            self.described() ==> depth == self.preview_depth(),
    ;

    /// Maximum number of children to show per parent.
    fn max_children_to_show(&self) -> (n: usize)
        ensures
            self.described() ==> n == self.children_shown(),
    ;
}

/// The depth to which previews go unless a strategy says otherwise.
pub const DEFAULT_PREVIEW_DEPTH: u16 = 3;

/// The number of children shown per parent unless a strategy says
/// otherwise.
pub const DEFAULT_CHILDREN_SHOWN: usize = 3;

/// Simple strategy: always preview the top N entries.
#[derive(Debug, Clone, Copy)]
pub struct SimplePreviewStrategy {
    pub top_n: usize,
}

impl PreviewStrategy for SimplePreviewStrategy {
    open spec fn described(&self) -> bool {
        true
    }

    open spec fn previews(
        &self,
        entry: DirectoryEntry,
        parent_size: u64,
        root_size: u64,
        rank: usize,
        depth: u16,
    ) -> bool {
        rank <= self.top_n
    }

    open spec fn preview_depth(&self) -> u16 {
        DEFAULT_PREVIEW_DEPTH
    }

    open spec fn children_shown(&self) -> usize {
        DEFAULT_CHILDREN_SHOWN
    }

    fn should_preview(
        &self,
        _entry: &DirectoryEntry,
        _parent_size: u64,
        _root_size: u64,
        rank: usize,
        _depth: u16,
    ) -> (expand: bool) {
        rank <= self.top_n
    }

    fn max_preview_depth(&self) -> (depth: u16) {
        DEFAULT_PREVIEW_DEPTH
    }

    fn max_children_to_show(&self) -> (n: usize) {
        DEFAULT_CHILDREN_SHOWN
    }
}

/// Get immediate children of a directory from all entries, the largest
/// first.
pub fn get_children_from_all(
    all_entries: &[DirectoryEntry],
    parent_path: &str,
    parent_depth: u16,
) -> (children: Vec<DirectoryEntry>)
    ensures
        children@ == ranked_by(
            children_among(all_entries@, all_entries@.len() as int, parent_path@, parent_depth),
            SortBy::Size,
        ),
{
    let children = get_immediate_children(all_entries, parent_path, parent_depth);
    let ghost unsorted = children@;
    let sorted = sort_and_limit(children, SortBy::Size, None);
    assert(sorted@ =~= ranked_by(unsorted, SortBy::Size)) by {
        crate::services::ranking::lemma_ranking_is_an_ordered_permutation::<
            DirectoryEntry,
            crate::services::aggregate::BySize,
        >(unsorted);
    }
    sorted
}

/// One line of the view: an entry and how far it is indented.
#[derive(Debug)]
pub struct PreviewLine {
    pub entry: DirectoryEntry,
    pub indent: usize,
}

/// The sum of the sizes of entries, stopping at `u64::MAX`.
pub open spec fn total_size_of(entries: Seq<DirectoryEntry>, upto: int) -> u64
    decreases upto,
{
    if upto <= 0 || upto > entries.len() {
        0
    } else {
        crate::services::traverse::rules::sat_add(
            total_size_of(entries, upto - 1),
            entries[upto - 1].size_bytes,
        )
    }
}

/// The size against which the shares of the displayed entries are taken:
/// the sum of their sizes.
pub fn total_size(entries: &[DirectoryEntry]) -> (total: u64)
    ensures
        total == total_size_of(entries@, entries@.len() as int),
{
    let mut total: u64 = 0;
    let mut i: usize = 0;
    while i < entries.len()
        invariant
            i <= entries.len(),
            total == total_size_of(entries@, i as int),
        decreases entries.len() - i,
    {
        total = total.saturating_add(entries[i].size_bytes);
        i += 1;
    }
    total
}

/// One level further in, as far as levels can be counted.
pub open spec fn next_indent(indent: usize) -> usize {
    if indent < usize::MAX {
        (indent + 1) as usize
    } else {
        indent
    }
}

/// The children of an entry that a view shows: the largest first, and no
/// more of them than `most`.
pub open spec fn shown_children(
    all: Seq<DirectoryEntry>,
    entry: DirectoryEntry,
    most: usize,
) -> Seq<DirectoryEntry> {
    let children = ranked_by(
        children_among(all, all.len() as int, entry.path@, entry.depth),
        SortBy::Size,
    );
    if most < children.len() {
        children.take(most as int)
    } else {
        children
    }
}

/// The lines that a described strategy gives for the first `upto` of the
/// entries `current`, in order.
pub open spec fn lines_for<P: PreviewStrategy>(
    strategy: P,
    current: Seq<DirectoryEntry>,
    upto: int,
    all: Seq<DirectoryEntry>,
    parent_size: u64,
    root_size: u64,
    indent: usize,
    depth: u16,
) -> Seq<PreviewLine>
    decreases u16::MAX - depth, 1 + upto,
{
    if upto <= 0 || upto > current.len() {
        Seq::empty()
    } else {
        lines_for(strategy, current, upto - 1, all, parent_size, root_size, indent, depth)
            + lines_of(
            strategy,
            current[upto - 1],
            upto,
            all,
            parent_size,
            root_size,
            indent,
            depth,
        )
    }
}

/// The lines that a described strategy gives for one entry of rank `rank`:
/// the entry, and where the strategy expands it, the lines of the children
/// shown, one level further in. Nothing is expanded at the depth to which
/// the strategy previews, nor where there are no entries to look children
/// up in.
pub open spec fn lines_of<P: PreviewStrategy>(
    strategy: P,
    entry: DirectoryEntry,
    rank: int,
    all: Seq<DirectoryEntry>,
    parent_size: u64,
    root_size: u64,
    indent: usize,
    depth: u16,
) -> Seq<PreviewLine>
    decreases u16::MAX - depth, 0int,
{
    let own = seq![PreviewLine { entry, indent }];
    if depth < strategy.preview_depth() && all.len() > 0 && strategy.previews(
        entry,
        parent_size,
        root_size,
        rank as usize,
        depth,
    ) {
        let children = shown_children(all, entry, strategy.children_shown());
        own + lines_for(
            strategy,
            children,
            children.len() as int,
            all,
            entry.size_bytes,
            root_size,
            next_indent(indent),
            (depth + 1) as u16,
        )
    } else {
        own
    }
}

/// The lines of the view for `current_entries`, in order: every entry, and
/// behind an entry that the strategy expands, the lines of its largest
/// children, one level further in. Children are looked up in
/// `all_entries`; an empty `all_entries` expands nothing.
pub fn preview_lines<P: PreviewStrategy>(
    current_entries: &[DirectoryEntry],
    all_entries: &[DirectoryEntry],
    strategy: &P,
    parent_size: u64,
    root_size: u64,
    indent_level: usize,
    current_depth: u16,
    lines: &mut Vec<PreviewLine>,
)
    ensures
        strategy.described() ==> final(lines)@ == old(lines)@ + lines_for(
            *strategy,
            current_entries@,
            current_entries@.len() as int,
            all_entries@,
            parent_size,
            root_size,
            indent_level,
            current_depth,
        ),
        final(lines)@.len() >= old(lines)@.len() + current_entries@.len(),
        forall|i: int| 0 <= i < old(lines)@.len() ==> final(lines)@[i] == old(lines)@[i],
        forall|i: int|
            old(lines)@.len() <= i < final(lines)@.len() ==> (#[trigger] final(lines)@[i]).indent
                >= indent_level,
        current_entries@.len() > 0 ==> final(lines)@[old(lines)@.len() as int].entry
            == current_entries@[0] && final(lines)@[old(lines)@.len() as int].indent
            == indent_level,
    decreases u16::MAX - current_depth,
{
    let mut rank: usize = 0;
    assert(old(lines)@ + Seq::<PreviewLine>::empty() =~= old(lines)@);
    while rank < current_entries.len()
        invariant
            rank <= current_entries.len(),
            strategy.described() ==> lines@ == old(lines)@ + lines_for(
                *strategy,
                current_entries@,
                rank as int,
                all_entries@,
                parent_size,
                root_size,
                indent_level,
                current_depth,
            ),
            lines@.len() >= old(lines)@.len() + rank,
            forall|i: int| 0 <= i < old(lines)@.len() ==> lines@[i] == old(lines)@[i],
            forall|i: int|
                old(lines)@.len() <= i < lines@.len() ==> (#[trigger] lines@[i]).indent
                    >= indent_level,
            rank == 0 ==> lines@.len() == old(lines)@.len(),
            rank > 0 ==> lines@[old(lines)@.len() as int].entry == current_entries@[0]
                && lines@[old(lines)@.len() as int].indent == indent_level,
        decreases current_entries.len() - rank,
    {
        let entry = &current_entries[rank];
        let ghost before = lines@;
        lines.push(PreviewLine { entry: entry.clone(), indent: indent_level });
        let ghost first = lines@[old(lines)@.len() as int];
        let ghost own = seq![PreviewLine { entry: *entry, indent: indent_level }];
        assert(first.entry == current_entries@[0] && first.indent == indent_level);
        assert(lines@ =~= before + own);
        let deeper = current_depth < strategy.max_preview_depth();
        if deeper && all_entries.len() > 0 && strategy.should_preview(
            entry,
            parent_size,
            root_size,
            rank + 1,
            current_depth,
        ) {
            let children = get_children_from_all(all_entries, entry.path.as_str(), entry.depth);
            let most = strategy.max_children_to_show();
            let shown = if most < children.len() {
                most
            } else {
                children.len()
            };
            let mut top: Vec<DirectoryEntry> = Vec::new();
            let mut k: usize = 0;
            while k < shown
                invariant
                    k <= shown <= children.len(),
                    top@ == children@.take(k as int),
                decreases shown - k,
            {
                top.push(children[k].clone());
                assert(top@ =~= children@.take(k + 1));
                k += 1;
            }
            assert(children@.take(children@.len() as int) =~= children@);
            let next_indent = if indent_level < usize::MAX {
                indent_level + 1
            } else {
                indent_level
            };
            let ghost mid = lines@;
            preview_lines(
                top.as_slice(),
                all_entries,
                strategy,
                entry.size_bytes,
                root_size,
                next_indent,
                current_depth + 1,
                lines,
            );
            proof {
                if strategy.described() {
                    assert(top@ == shown_children(all_entries@, *entry, strategy.children_shown()));
                    let deeper_lines = lines_for(
                        *strategy,
                        top@,
                        top@.len() as int,
                        all_entries@,
                        entry.size_bytes,
                        root_size,
                        next_indent,
                        (current_depth + 1) as u16,
                    );
                    assert(lines@ =~= before + (own + deeper_lines));
                }
            }
        }
        proof {
            if strategy.described() {
                assert(lines@ == before + lines_of(
                    *strategy,
                    *entry,
                    rank + 1,
                    all_entries@,
                    parent_size,
                    root_size,
                    indent_level,
                    current_depth,
                ));
                assert(lines@ =~= old(lines)@ + lines_for(
                    *strategy,
                    current_entries@,
                    rank + 1,
                    all_entries@,
                    parent_size,
                    root_size,
                    indent_level,
                    current_depth,
                ));
            }
        }
        assert(lines@[old(lines)@.len() as int] == first);
        rank += 1;
    }
}

} // verus!
