//! The strategies agree on sizes too where every name of a file counts:
//! under the policy that counts hardlinks independently, and under the
//! policy that counts them once where no file is met under two names, a
//! depth-first walk and a walk that fans out emit the very same entries.

use vstd::prelude::*;

use super::laws::saturated;
use super::legacy::FileId;
use super::parity::{census, class_of};
use super::rules::{
    attributed_size, child_path, children_within_limit, contribution, descends,
    directory_entry, extends, fan_directory, fan_item, fan_out, fan_root, file_entry, list_item,
    list_items, normalized, seen_after, verdict, walk_directory, walk_item, walk_items, walk_root,
    Emission, Tally, Verdict, WalkRules, WalkState,
};
use super::tree::{DirItem, FsNode};
use crate::models::DirectoryEntryView;
use crate::HardlinkPolicy;

verus! {

/// The entries among the emissions from position `from` on.
pub open spec fn entries(emitted: Seq<Emission>, from: int) -> Set<DirectoryEntryView> {
    Set::new(
        |e: DirectoryEntryView| exists|i: int| from <= i < emitted.len() && emitted[i].entry == e,
    )
}

/// The bytes below the first `upto` items of a directory at `depth`, every
/// file counting with its size under the basis: the sum before it is cut
/// to what a total can hold.
pub open spec fn bytes_below_items(items: Seq<DirItem>, upto: int, depth: u16, rules: WalkRules)
    -> nat
    decreases items, 1nat, upto,
{
    if upto <= 0 || upto > items.len() {
        0
    } else {
        bytes_below_items(items, upto - 1, depth, rules) + bytes_below_item(
            items[upto - 1],
            depth,
            rules,
        )
    }
}

/// The bytes that one item of a directory at `depth` stands for. A
/// subdirectory stands for what its total holds; one that is not walked
/// stands for nothing.
pub open spec fn bytes_below_item(item: DirItem, depth: u16, rules: WalkRules) -> nat
    decreases item, 0nat, 0nat,
{
    match item {
        DirItem::Unreadable(_) => 0,
        DirItem::Entry(child) => match class_of(item, rules) {
            Verdict::Skip => 0,
            Verdict::File => attributed_size(child.meta->Ok_0, rules.basis) as nat,
            Verdict::Directory => if children_within_limit(depth, rules) {
                saturated(bytes_below(child, (depth + 1) as u16, rules)) as nat
            } else {
                0
            },
        },
    }
}

/// The bytes below a directory at `depth`.
pub open spec fn bytes_below(node: FsNode, depth: u16, rules: WalkRules) -> nat
    decreases node, 0nat, 0nat,
{
    match node.listing {
        Err(_) => 0,
        Ok(items) => bytes_below_items(items@, items@.len() as int, depth, rules),
    }
}

/// The bytes that the items taken for `class` stand for among the first
/// `upto` items.
pub open spec fn bytes_below_class(
    items: Seq<DirItem>,
    upto: int,
    depth: u16,
    rules: WalkRules,
    class: Verdict,
) -> nat
    decreases upto,
{
    if upto <= 0 || upto > items.len() {
        0
    } else {
        bytes_below_class(items, upto - 1, depth, rules, class) + if class_of(
            items[upto - 1],
            rules,
        ) == class {
            bytes_below_item(items[upto - 1], depth, rules)
        } else {
            0
        }
    }
}

/// The identities of the files that one item of a directory at `depth`
/// brings into a walk.
pub open spec fn ids_of_item(item: DirItem, depth: u16, rules: WalkRules) -> Set<FileId>
    decreases item, 0nat, 0nat,
{
    match item {
        DirItem::Unreadable(_) => Set::empty(),
        DirItem::Entry(child) => match class_of(item, rules) {
            Verdict::Skip => Set::empty(),
            Verdict::File => match child.meta->Ok_0.file_id {
                Some(id) => set![id],
                None => Set::empty(),
            },
            Verdict::Directory => if children_within_limit(depth, rules) {
                ids_below(child, (depth + 1) as u16, rules)
            } else {
                Set::empty()
            },
        },
    }
}

/// The identities of the files that the first `upto` items bring into a
/// walk.
pub open spec fn ids_of_items(items: Seq<DirItem>, upto: int, depth: u16, rules: WalkRules) -> Set<
    FileId,
>
    decreases items, 1nat, upto,
{
    if upto <= 0 || upto > items.len() {
        Set::empty()
    } else {
        ids_of_items(items, upto - 1, depth, rules).union(
            ids_of_item(items[upto - 1], depth, rules),
        )
    }
}

/// The identities of the files that a walk meets below a directory.
pub open spec fn ids_below(node: FsNode, depth: u16, rules: WalkRules) -> Set<FileId>
    decreases node, 0nat, 0nat,
{
    match node.listing {
        Err(_) => Set::empty(),
        Ok(items) => ids_of_items(items@, items@.len() as int, depth, rules),
    }
}

/// The identities that the items taken for `class` bring among the first
/// `upto` items.
pub open spec fn ids_of_class(
    items: Seq<DirItem>,
    upto: int,
    depth: u16,
    rules: WalkRules,
    class: Verdict,
) -> Set<FileId>
    decreases upto,
{
    if upto <= 0 || upto > items.len() {
        Set::empty()
    } else {
        let rest = ids_of_class(items, upto - 1, depth, rules, class);
        if class_of(items[upto - 1], rules) == class {
            rest.union(ids_of_item(items[upto - 1], depth, rules))
        } else {
            rest
        }
    }
}

/// Whether no file is met under two names below one item.
pub open spec fn unrepeated_item(item: DirItem, depth: u16, rules: WalkRules) -> bool
    decreases item, 0nat, 0nat,
{
    match item {
        DirItem::Unreadable(_) => true,
        DirItem::Entry(child) => class_of(item, rules) is Directory && children_within_limit(
            depth,
            rules,
        ) ==> unrepeated_below(child, (depth + 1) as u16, rules),
    }
}

/// Whether no file is met under two names among the first `upto` items.
pub open spec fn unrepeated_items(items: Seq<DirItem>, upto: int, depth: u16, rules: WalkRules)
    -> bool
    decreases items, 1nat, upto,
{
    if upto <= 0 || upto > items.len() {
        true
    } else {
        &&& unrepeated_items(items, upto - 1, depth, rules)
        &&& unrepeated_item(items[upto - 1], depth, rules)
        &&& ids_of_items(items, upto - 1, depth, rules).disjoint(
            ids_of_item(items[upto - 1], depth, rules),
        )
    }
}

/// Whether no file is met under two names below a directory.
pub open spec fn unrepeated_below(node: FsNode, depth: u16, rules: WalkRules) -> bool
    decreases node, 0nat, 0nat,
{
    match node.listing {
        Err(_) => true,
        Ok(items) => unrepeated_items(items@, items@.len() as int, depth, rules),
    }
}

/// Whether no file is met under two names among the items taken for
/// `class`.
pub open spec fn unrepeated_class(
    items: Seq<DirItem>,
    upto: int,
    depth: u16,
    rules: WalkRules,
    class: Verdict,
) -> bool
    decreases upto,
{
    if upto <= 0 || upto > items.len() {
        true
    } else {
        &&& unrepeated_class(items, upto - 1, depth, rules, class)
        &&& class_of(items[upto - 1], rules) == class ==> unrepeated_item(
            items[upto - 1],
            depth,
            rules,
        ) && ids_of_class(items, upto - 1, depth, rules, class).disjoint(
            ids_of_item(items[upto - 1], depth, rules),
        )
    }
}

/// Whether every name of a file counts in a walk that meets the files of
/// the identities `ids`: hardlinks count independently, or they count once
/// and no file is met under two names, nor was any of them seen before.
pub open spec fn every_name_counts(
    rules: WalkRules,
    seen: Set<FileId>,
    ids: Set<FileId>,
    unrepeated: bool,
) -> bool {
    rules.hardlink_policy == HardlinkPolicy::Count || (unrepeated && seen.disjoint(ids))
}

/// The files seen once a walk has met the files of the identities `ids`.
pub open spec fn seen_with(rules: WalkRules, seen: Set<FileId>, ids: Set<FileId>) -> Set<FileId> {
    match rules.hardlink_policy {
        HardlinkPolicy::Count => seen,
        HardlinkPolicy::Dedupe => seen.union(ids),
    }
}

/// The identities of the files that the walk of a whole scan meets.
pub open spec fn ids_of_root(root: FsNode, rules: WalkRules) -> Set<FileId> {
    match root.meta {
        Err(_) => Set::empty(),
        Ok(meta) => match verdict(meta, rules) {
            Verdict::Skip => Set::empty(),
            Verdict::File => match meta.file_id {
                Some(id) => set![id],
                None => Set::empty(),
            },
            Verdict::Directory => ids_below(root, 0, rules),
        },
    }
}

/// Whether every name of a file counts in the walk of a whole scan that
/// starts with the files `seen`.
pub open spec fn every_name_counts_from_root(root: FsNode, rules: WalkRules, seen: Set<FileId>)
    -> bool {
    every_name_counts(
        rules,
        seen,
        ids_of_root(root, rules),
        root.meta matches Ok(meta) && verdict(meta, rules) is Directory ==> unrepeated_below(
            root,
            0,
            rules,
        ),
    )
}

/// The entries that the walk of a directory gives where every name of a
/// file counts, whatever the strategy.
pub open spec fn entries_below(
    node: FsNode,
    path: Seq<char>,
    parent: Option<Seq<char>>,
    depth: u16,
    rules: WalkRules,
) -> Set<DirectoryEntryView>
    decreases node, 0nat, 0nat,
{
    match node.listing {
        Err(_) => Set::empty(),
        Ok(items) => {
            let (files, dirs) = census(items@, items@.len() as int, rules);
            entries_of_items(items@, items@.len() as int, path, depth, rules).insert(
                directory_entry(
                    path,
                    parent,
                    depth,
                    Tally { total: saturated(bytes_below(node, depth, rules)), files, dirs },
                ),
            )
        },
    }
}

/// The entries that the first `upto` items of a directory give.
pub open spec fn entries_of_items(
    items: Seq<DirItem>,
    upto: int,
    dir: Seq<char>,
    depth: u16,
    rules: WalkRules,
) -> Set<DirectoryEntryView>
    decreases items, 1nat, upto,
{
    if upto <= 0 || upto > items.len() {
        Set::empty()
    } else {
        entries_of_items(items, upto - 1, dir, depth, rules).union(
            entries_of_item(items[upto - 1], dir, depth, rules),
        )
    }
}

/// The entries that one item of a directory gives.
pub open spec fn entries_of_item(item: DirItem, dir: Seq<char>, depth: u16, rules: WalkRules)
    -> Set<DirectoryEntryView>
    decreases item, 0nat, 0nat,
{
    match item {
        DirItem::Unreadable(_) => Set::empty(),
        DirItem::Entry(child) => if !children_within_limit(depth, rules) {
            Set::empty()
        } else {
            match class_of(item, rules) {
                Verdict::Skip => Set::empty(),
                Verdict::File => set![file_entry(
                    dir,
                    child.name@,
                    depth,
                    attributed_size(child.meta->Ok_0, rules.basis),
                    rules.host,
                )],
                Verdict::Directory => entries_below(
                    child,
                    child_path(dir, child.name@, rules.host),
                    Some(dir),
                    (depth + 1) as u16,
                    rules,
                ),
            }
        },
    }
}

/// The entries that the items taken for `class` give among the first
/// `upto` items.
pub open spec fn entries_of_class(
    items: Seq<DirItem>,
    upto: int,
    dir: Seq<char>,
    depth: u16,
    rules: WalkRules,
    class: Verdict,
) -> Set<DirectoryEntryView>
    decreases upto,
{
    if upto <= 0 || upto > items.len() {
        Set::empty()
    } else {
        let rest = entries_of_class(items, upto - 1, dir, depth, rules, class);
        if class_of(items[upto - 1], rules) == class {
            rest.union(entries_of_item(items[upto - 1], dir, depth, rules))
        } else {
            rest
        }
    }
}

/// The entries that the walk of a whole scan gives where every name of a
/// file counts.
pub open spec fn entries_of_root(root: FsNode, rules: WalkRules) -> Set<DirectoryEntryView> {
    match root.meta {
        Err(_) => Set::empty(),
        Ok(meta) => match verdict(meta, rules) {
            Verdict::Directory => entries_below(
                root,
                normalized(root.name@, rules.host),
                None,
                0,
                rules,
            ),
            _ => Set::empty(),
        },
    }
}

proof fn lemma_entries_of_nothing(emitted: Seq<Emission>)
    ensures
        entries(emitted, emitted.len() as int) == Set::<DirectoryEntryView>::empty(),
{
    assert(entries(emitted, emitted.len() as int) =~= Set::<DirectoryEntryView>::empty());
}

proof fn lemma_entries_of_push(emitted: Seq<Emission>, from: int, emission: Emission)
    requires
        0 <= from <= emitted.len(),
    ensures
        entries(emitted.push(emission), from) == entries(emitted, from).insert(emission.entry),
{
    let longer = emitted.push(emission);
    assert forall|e: DirectoryEntryView| entries(longer, from).contains(e) implies entries(
        emitted,
        from,
    ).insert(emission.entry).contains(e) by {
        let i = choose|i: int| from <= i < longer.len() && longer[i].entry == e;
        if i < emitted.len() {
            assert(longer[i] == emitted[i]);
        }
    }
    assert forall|e: DirectoryEntryView|
        entries(emitted, from).insert(emission.entry).contains(e) implies entries(
        longer,
        from,
    ).contains(e) by {
        if e == emission.entry {
            assert(longer[emitted.len() as int].entry == e);
        } else {
            let i = choose|i: int| from <= i < emitted.len() && emitted[i].entry == e;
            assert(longer[i] == emitted[i]);
        }
    }
    assert(entries(longer, from) =~= entries(emitted, from).insert(emission.entry));
}

proof fn lemma_entries_in_two_parts(a: Seq<Emission>, b: Seq<Emission>, from: int)
    requires
        0 <= from <= a.len(),
        extends(a, b),
    ensures
        entries(b, from) == entries(a, from).union(entries(b, a.len() as int)),
{
    assert forall|e: DirectoryEntryView| entries(b, from).contains(e) implies entries(
        a,
        from,
    ).union(entries(b, a.len() as int)).contains(e) by {
        let i = choose|i: int| from <= i < b.len() && b[i].entry == e;
        if i < a.len() {
            assert(b[i] == a[i]);
            assert(a[i].entry == e);
        }
    }
    assert forall|e: DirectoryEntryView|
        entries(a, from).union(entries(b, a.len() as int)).contains(e) implies entries(
        b,
        from,
    ).contains(e) by {
        if entries(a, from).contains(e) {
            let i = choose|i: int| from <= i < a.len() && a[i].entry == e;
            assert(b[i] == a[i]);
            assert(b[i].entry == e);
        } else {
            let i = choose|i: int| a.len() <= i < b.len() && b[i].entry == e;
            assert(b[i].entry == e);
        }
    }
    assert(entries(b, from) =~= entries(a, from).union(entries(b, a.len() as int)));
}

/// What a pass over items does where every name of a file counts: the
/// emissions grow by the given entries, and the total by the given bytes.
pub open spec fn passes(
    before: Seq<Emission>,
    after: Seq<Emission>,
    gained: Set<DirectoryEntryView>,
    total_before: u64,
    total_after: u64,
    bytes: nat,
) -> bool {
    &&& extends(before, after)
    &&& entries(after, before.len() as int) == gained
    &&& forall|base: nat|
        total_before == #[trigger] saturated(base) ==> total_after == saturated(base + bytes)
}

proof fn lemma_seen_in_two_steps(rules: WalkRules, seen: Set<FileId>, x: Set<FileId>, y: Set<FileId>)
    ensures
        seen_with(rules, seen_with(rules, seen, x), y) == seen_with(rules, seen, x.union(y)),
{
    assert(seen_with(rules, seen_with(rules, seen, x), y) =~= seen_with(rules, seen, x.union(y)));
}

proof fn lemma_two_passes(
    first: Seq<Emission>,
    mid: Seq<Emission>,
    last: Seq<Emission>,
    early: Set<DirectoryEntryView>,
    late: Set<DirectoryEntryView>,
    a: u64,
    b: u64,
    c: u64,
    x: nat,
    y: nat,
)
    requires
        passes(first, mid, early, a, b, x),
        passes(mid, last, late, b, c, y),
    ensures
        passes(first, last, early.union(late), a, c, x + y),
{
    lemma_entries_in_two_parts(mid, last, first.len() as int);
    assert forall|base: nat| a == #[trigger] saturated(base) implies c == saturated(
        base + (x + y),
    ) by {
        assert(b == saturated(base + x));
    }
}

proof fn lemma_walk_directory_entries(
    node: FsNode,
    path: Seq<char>,
    parent: Option<Seq<char>>,
    depth: u16,
    device: u64,
    rules: WalkRules,
    state: WalkState,
)
    requires
        every_name_counts(
            rules,
            state.seen,
            ids_below(node, depth, rules),
            unrepeated_below(node, depth, rules),
        ),
    ensures
        ({
            let (total, after) = walk_directory(node, path, parent, depth, device, rules, state);
            &&& extends(state.emitted, after.emitted)
            &&& entries(after.emitted, state.emitted.len() as int) == entries_below(
                node,
                path,
                parent,
                depth,
                rules,
            )
            &&& total == saturated(bytes_below(node, depth, rules))
            &&& after.seen == seen_with(rules, state.seen, ids_below(node, depth, rules))
        }),
    decreases node, 0nat, 0nat,
{
    match node.listing {
        Err(_) => {
            lemma_entries_of_nothing(state.emitted);
            assert(seen_with(rules, state.seen, Set::empty()) =~= state.seen);
        },
        Ok(items) => {
            let n = items@.len() as int;
            lemma_walk_items_entries(items@, n, path, depth, rules, Tally::zero(), state);
            super::parity::lemma_walk_items_census(
                items@,
                n,
                path,
                depth,
                rules,
                Tally::zero(),
                state,
            );
            let (tally, mid) = walk_items(items@, n, path, depth, rules, Tally::zero(), state);
            assert(Tally::zero().total == saturated(0nat));
            lemma_entries_of_push(
                mid.emitted,
                state.emitted.len() as int,
                Emission { entry: directory_entry(path, parent, depth, tally), device: Some(device) },
            );
        },
    }
}

proof fn lemma_walk_items_entries(
    items: Seq<DirItem>,
    upto: int,
    dir: Seq<char>,
    depth: u16,
    rules: WalkRules,
    tally: Tally,
    state: WalkState,
)
    requires
        every_name_counts(
            rules,
            state.seen,
            ids_of_items(items, upto, depth, rules),
            unrepeated_items(items, upto, depth, rules),
        ),
    ensures
        ({
            let (tally_after, after) = walk_items(items, upto, dir, depth, rules, tally, state);
            &&& passes(
                state.emitted,
                after.emitted,
                entries_of_items(items, upto, dir, depth, rules),
                tally.total,
                tally_after.total,
                bytes_below_items(items, upto, depth, rules),
            )
            &&& after.seen == seen_with(rules, state.seen, ids_of_items(items, upto, depth, rules))
        }),
    decreases items, 1nat, upto,
{
    if upto <= 0 || upto > items.len() {
        lemma_entries_of_nothing(state.emitted);
        assert(seen_with(rules, state.seen, Set::empty()) =~= state.seen);
    } else {
        let early = ids_of_items(items, upto - 1, depth, rules);
        let own = ids_of_item(items[upto - 1], depth, rules);
        lemma_walk_items_entries(items, upto - 1, dir, depth, rules, tally, state);
        let (before, mid) = walk_items(items, upto - 1, dir, depth, rules, tally, state);
        assert(every_name_counts(
            rules,
            mid.seen,
            own,
            unrepeated_item(items[upto - 1], depth, rules),
        ));
        lemma_walk_item_entries(items[upto - 1], dir, depth, rules, before, mid);
        let (tally_after, after) = walk_item(items[upto - 1], dir, depth, rules, before, mid);
        lemma_two_passes(
            state.emitted,
            mid.emitted,
            after.emitted,
            entries_of_items(items, upto - 1, dir, depth, rules),
            entries_of_item(items[upto - 1], dir, depth, rules),
            tally.total,
            before.total,
            tally_after.total,
            bytes_below_items(items, upto - 1, depth, rules),
            bytes_below_item(items[upto - 1], depth, rules),
        );
        lemma_seen_in_two_steps(rules, state.seen, early, own);
    }
}

proof fn lemma_walk_item_entries(
    item: DirItem,
    dir: Seq<char>,
    depth: u16,
    rules: WalkRules,
    tally: Tally,
    state: WalkState,
)
    requires
        every_name_counts(
            rules,
            state.seen,
            ids_of_item(item, depth, rules),
            unrepeated_item(item, depth, rules),
        ),
    ensures
        ({
            let (tally_after, after) = walk_item(item, dir, depth, rules, tally, state);
            &&& passes(
                state.emitted,
                after.emitted,
                entries_of_item(item, dir, depth, rules),
                tally.total,
                tally_after.total,
                bytes_below_item(item, depth, rules),
            )
            &&& after.seen == seen_with(rules, state.seen, ids_of_item(item, depth, rules))
        }),
    decreases item, 0nat, 0nat,
{
    let after = walk_item(item, dir, depth, rules, tally, state).1;
    lemma_entries_of_nothing(state.emitted);
    assert(seen_with(rules, state.seen, Set::empty()) =~= state.seen);
    match item {
        DirItem::Unreadable(_) => {},
        DirItem::Entry(child) => {
            match class_of(item, rules) {
                Verdict::Skip => {},
                Verdict::File => {
                    lemma_a_file_counts(child.meta->Ok_0, rules, state.seen);
                    if children_within_limit(depth, rules) {
                        lemma_entries_of_push(
                            state.emitted,
                            state.emitted.len() as int,
                            after.emitted.last(),
                        );
                        assert(after.emitted =~= state.emitted.push(after.emitted.last()));
                        assert(entries_of_item(item, dir, depth, rules) =~= Set::<
                            DirectoryEntryView,
                        >::empty().insert(after.emitted.last().entry));
                    }
                },
                Verdict::Directory => {
                    if children_within_limit(depth, rules) {
                        lemma_walk_directory_entries(
                            child,
                            child_path(dir, child.name@, rules.host),
                            Some(dir),
                            (depth + 1) as u16,
                            child.meta->Ok_0.device,
                            rules,
                            state,
                        );
                    }
                },
            }
        },
    }
}

/// A file whose identity was not seen counts with its size, and is seen
/// from then on.
proof fn lemma_a_file_counts(meta: super::tree::FileMeta, rules: WalkRules, seen: Set<FileId>)
    requires
        every_name_counts(
            rules,
            seen,
            match meta.file_id {
                Some(id) => set![id],
                None => Set::empty(),
            },
            true,
        ),
    ensures
        contribution(meta, rules, seen) == attributed_size(meta, rules.basis),
        seen_after(meta, rules, seen) == seen_with(
            rules,
            seen,
            match meta.file_id {
                Some(id) => set![id],
                None => Set::empty(),
            },
        ),
{
    match meta.file_id {
        Some(id) => {
            assert(set![id].contains(id));
            assert(seen.insert(id) =~= seen.union(set![id]));
        },
        None => {
            assert(seen.union(Set::empty()) =~= seen);
        },
    }
}

proof fn lemma_by_class(items: Seq<DirItem>, upto: int, dir: Seq<char>, depth: u16, rules: WalkRules)
    ensures
        entries_of_items(items, upto, dir, depth, rules) == entries_of_class(
            items,
            upto,
            dir,
            depth,
            rules,
            Verdict::File,
        ).union(entries_of_class(items, upto, dir, depth, rules, Verdict::Directory)),
        bytes_below_items(items, upto, depth, rules) == bytes_below_class(
            items,
            upto,
            depth,
            rules,
            Verdict::File,
        ) + bytes_below_class(items, upto, depth, rules, Verdict::Directory),
        ids_of_items(items, upto, depth, rules) == ids_of_class(
            items,
            upto,
            depth,
            rules,
            Verdict::File,
        ).union(ids_of_class(items, upto, depth, rules, Verdict::Directory)),
        unrepeated_items(items, upto, depth, rules) ==> {
            &&& unrepeated_class(items, upto, depth, rules, Verdict::File)
            &&& unrepeated_class(items, upto, depth, rules, Verdict::Directory)
            &&& ids_of_class(items, upto, depth, rules, Verdict::File).disjoint(
                ids_of_class(items, upto, depth, rules, Verdict::Directory),
            )
        },
    decreases upto,
{
    let files = entries_of_class(items, upto, dir, depth, rules, Verdict::File);
    let dirs = entries_of_class(items, upto, dir, depth, rules, Verdict::Directory);
    let file_ids = ids_of_class(items, upto, depth, rules, Verdict::File);
    let dir_ids = ids_of_class(items, upto, depth, rules, Verdict::Directory);
    if upto <= 0 || upto > items.len() {
        assert(entries_of_items(items, upto, dir, depth, rules) =~= files.union(dirs));
        assert(ids_of_items(items, upto, depth, rules) =~= file_ids.union(dir_ids));
    } else {
        lemma_by_class(items, upto - 1, dir, depth, rules);
        let item = items[upto - 1];
        let own = entries_of_item(item, dir, depth, rules);
        let own_ids = ids_of_item(item, depth, rules);
        let files_before = entries_of_class(items, upto - 1, dir, depth, rules, Verdict::File);
        let dirs_before = entries_of_class(items, upto - 1, dir, depth, rules, Verdict::Directory);
        let file_ids_before = ids_of_class(items, upto - 1, depth, rules, Verdict::File);
        let dir_ids_before = ids_of_class(items, upto - 1, depth, rules, Verdict::Directory);
        match class_of(item, rules) {
            Verdict::Skip => {
                assert(own =~= Set::<DirectoryEntryView>::empty());
                assert(own_ids =~= Set::<FileId>::empty());
                assert(files == files_before);
                assert(dirs == dirs_before);
                assert(bytes_below_item(item, depth, rules) == 0);
            },
            Verdict::File => {
                assert(files == files_before.union(own));
                assert(dirs == dirs_before);
                assert(file_ids == file_ids_before.union(own_ids));
            },
            Verdict::Directory => {
                assert(files == files_before);
                assert(dirs == dirs_before.union(own));
                assert(dir_ids == dir_ids_before.union(own_ids));
            },
        }
        assert(entries_of_items(items, upto, dir, depth, rules) == files_before.union(
            dirs_before,
        ).union(own));
        assert(entries_of_items(items, upto, dir, depth, rules) =~= files.union(dirs));
        assert(ids_of_items(items, upto, depth, rules) == file_ids_before.union(
            dir_ids_before,
        ).union(own_ids));
        assert(ids_of_items(items, upto, depth, rules) =~= file_ids.union(dir_ids));
    }
}

proof fn lemma_list_items_entries(
    items: Seq<DirItem>,
    upto: int,
    dir: Seq<char>,
    depth: u16,
    rules: WalkRules,
    tally: Tally,
    state: WalkState,
)
    requires
        upto <= items.len(),
        every_name_counts(
            rules,
            state.seen,
            ids_of_class(items, upto, depth, rules, Verdict::File),
            unrepeated_class(items, upto, depth, rules, Verdict::File),
        ),
    ensures
        ({
            let (tally_after, after) = list_items(items, upto, dir, depth, rules, tally, state);
            &&& passes(
                state.emitted,
                after.emitted,
                entries_of_class(items, upto, dir, depth, rules, Verdict::File),
                tally.total,
                tally_after.total,
                bytes_below_class(items, upto, depth, rules, Verdict::File),
            )
            &&& after.seen == seen_with(
                rules,
                state.seen,
                ids_of_class(items, upto, depth, rules, Verdict::File),
            )
        }),
    decreases upto,
{
    if upto <= 0 || upto > items.len() {
        lemma_entries_of_nothing(state.emitted);
        assert(seen_with(rules, state.seen, Set::empty()) =~= state.seen);
    } else {
        let early = ids_of_class(items, upto - 1, depth, rules, Verdict::File);
        lemma_list_items_entries(items, upto - 1, dir, depth, rules, tally, state);
        let (before, mid) = list_items(items, upto - 1, dir, depth, rules, tally, state);
        let item = items[upto - 1];
        let (tally_after, after) = list_item(item, dir, depth, rules, before, mid);
        lemma_entries_of_nothing(mid.emitted);
        let is_file = class_of(item, rules) is File;
        if is_file {
            let child = item->Entry_0;
            assert(every_name_counts(rules, mid.seen, ids_of_item(item, depth, rules), true));
            lemma_a_file_counts(child.meta->Ok_0, rules, mid.seen);
            lemma_seen_in_two_steps(rules, state.seen, early, ids_of_item(item, depth, rules));
        }
        if is_file && children_within_limit(depth, rules) {
            lemma_entries_of_push(mid.emitted, mid.emitted.len() as int, after.emitted.last());
            assert(after.emitted =~= mid.emitted.push(after.emitted.last()));
            assert(entries_of_item(item, dir, depth, rules) =~= Set::<
                DirectoryEntryView,
            >::empty().insert(after.emitted.last().entry));
        }
        let gained = if is_file {
            entries_of_item(item, dir, depth, rules)
        } else {
            Set::<DirectoryEntryView>::empty()
        };
        let bytes = if is_file {
            bytes_below_item(item, depth, rules)
        } else {
            0
        };
        assert(passes(mid.emitted, after.emitted, gained, before.total, tally_after.total, bytes));
        lemma_two_passes(
            state.emitted,
            mid.emitted,
            after.emitted,
            entries_of_class(items, upto - 1, dir, depth, rules, Verdict::File),
            gained,
            tally.total,
            before.total,
            tally_after.total,
            bytes_below_class(items, upto - 1, depth, rules, Verdict::File),
            bytes,
        );
        assert(entries_of_class(items, upto - 1, dir, depth, rules, Verdict::File).union(gained)
            =~= entries_of_class(items, upto, dir, depth, rules, Verdict::File));
    }
}

proof fn lemma_fan_directory_entries(
    node: FsNode,
    path: Seq<char>,
    parent: Option<Seq<char>>,
    depth: u16,
    device: u64,
    rules: WalkRules,
    state: WalkState,
)
    requires
        every_name_counts(
            rules,
            state.seen,
            ids_below(node, depth, rules),
            unrepeated_below(node, depth, rules),
        ),
    ensures
        ({
            let (total, after) = fan_directory(node, path, parent, depth, device, rules, state);
            &&& extends(state.emitted, after.emitted)
            &&& entries(after.emitted, state.emitted.len() as int) == entries_below(
                node,
                path,
                parent,
                depth,
                rules,
            )
            &&& total == saturated(bytes_below(node, depth, rules))
            &&& after.seen == seen_with(rules, state.seen, ids_below(node, depth, rules))
        }),
    decreases node, 0nat, 0nat,
{
    match node.listing {
        Err(_) => {
            lemma_entries_of_nothing(state.emitted);
            assert(seen_with(rules, state.seen, Set::empty()) =~= state.seen);
        },
        Ok(items) => {
            let n = items@.len() as int;
            let from = state.emitted.len() as int;
            let file_ids = ids_of_class(items@, n, depth, rules, Verdict::File);
            let dir_ids = ids_of_class(items@, n, depth, rules, Verdict::Directory);
            lemma_by_class(items@, n, path, depth, rules);
            lemma_list_items_entries(items@, n, path, depth, rules, Tally::zero(), state);
            super::parity::lemma_list_items_census(
                items@,
                n,
                path,
                depth,
                rules,
                Tally::zero(),
                state,
            );
            let (listed, mid) = list_items(items@, n, path, depth, rules, Tally::zero(), state);
            assert(every_name_counts(
                rules,
                mid.seen,
                dir_ids,
                unrepeated_class(items@, n, depth, rules, Verdict::Directory),
            ));
            lemma_fan_out_entries(items@, n, path, depth, rules, listed.total, mid);
            let (total, late) = fan_out(items@, n, path, depth, rules, listed.total, mid);
            lemma_two_passes(
                state.emitted,
                mid.emitted,
                late.emitted,
                entries_of_class(items@, n, path, depth, rules, Verdict::File),
                entries_of_class(items@, n, path, depth, rules, Verdict::Directory),
                0,
                listed.total,
                total,
                bytes_below_class(items@, n, depth, rules, Verdict::File),
                bytes_below_class(items@, n, depth, rules, Verdict::Directory),
            );
            lemma_seen_in_two_steps(rules, state.seen, file_ids, dir_ids);
            assert(0u64 == saturated(0nat));
            let tally = Tally { total, ..listed };
            lemma_entries_of_push(
                late.emitted,
                from,
                Emission { entry: directory_entry(path, parent, depth, tally), device: Some(device) },
            );
        },
    }
}

proof fn lemma_fan_out_entries(
    items: Seq<DirItem>,
    upto: int,
    dir: Seq<char>,
    depth: u16,
    rules: WalkRules,
    total: u64,
    state: WalkState,
)
    requires
        upto <= items.len(),
        every_name_counts(
            rules,
            state.seen,
            ids_of_class(items, upto, depth, rules, Verdict::Directory),
            unrepeated_class(items, upto, depth, rules, Verdict::Directory),
        ),
    ensures
        ({
            let (total_after, after) = fan_out(items, upto, dir, depth, rules, total, state);
            &&& passes(
                state.emitted,
                after.emitted,
                entries_of_class(items, upto, dir, depth, rules, Verdict::Directory),
                total,
                total_after,
                bytes_below_class(items, upto, depth, rules, Verdict::Directory),
            )
            &&& after.seen == seen_with(
                rules,
                state.seen,
                ids_of_class(items, upto, depth, rules, Verdict::Directory),
            )
        }),
    decreases items, 1nat, upto,
{
    if upto <= 0 || upto > items.len() {
        lemma_entries_of_nothing(state.emitted);
        assert(seen_with(rules, state.seen, Set::empty()) =~= state.seen);
    } else {
        let early = ids_of_class(items, upto - 1, depth, rules, Verdict::Directory);
        lemma_fan_out_entries(items, upto - 1, dir, depth, rules, total, state);
        let (before, mid) = fan_out(items, upto - 1, dir, depth, rules, total, state);
        let item = items[upto - 1];
        let is_dir = class_of(item, rules) is Directory;
        if is_dir {
            assert(every_name_counts(
                rules,
                mid.seen,
                ids_of_item(item, depth, rules),
                unrepeated_item(item, depth, rules),
            ));
            lemma_seen_in_two_steps(rules, state.seen, early, ids_of_item(item, depth, rules));
        }
        lemma_fan_item_entries(item, dir, depth, rules, before, mid);
        let (total_after, after) = fan_item(item, dir, depth, rules, before, mid);
        let gained = if is_dir {
            entries_of_item(item, dir, depth, rules)
        } else {
            Set::<DirectoryEntryView>::empty()
        };
        let bytes = if is_dir {
            bytes_below_item(item, depth, rules)
        } else {
            0
        };
        lemma_two_passes(
            state.emitted,
            mid.emitted,
            after.emitted,
            entries_of_class(items, upto - 1, dir, depth, rules, Verdict::Directory),
            gained,
            total,
            before,
            total_after,
            bytes_below_class(items, upto - 1, depth, rules, Verdict::Directory),
            bytes,
        );
        assert(entries_of_class(items, upto - 1, dir, depth, rules, Verdict::Directory).union(
            gained,
        ) =~= entries_of_class(items, upto, dir, depth, rules, Verdict::Directory));
    }
}

proof fn lemma_fan_item_entries(
    item: DirItem,
    dir: Seq<char>,
    depth: u16,
    rules: WalkRules,
    total: u64,
    state: WalkState,
)
    requires
        class_of(item, rules) is Directory ==> every_name_counts(
            rules,
            state.seen,
            ids_of_item(item, depth, rules),
            unrepeated_item(item, depth, rules),
        ),
    ensures
        ({
            let (total_after, after) = fan_item(item, dir, depth, rules, total, state);
            &&& passes(
                state.emitted,
                after.emitted,
                if class_of(item, rules) is Directory {
                    entries_of_item(item, dir, depth, rules)
                } else {
                    Set::<DirectoryEntryView>::empty()
                },
                total,
                total_after,
                if class_of(item, rules) is Directory {
                    bytes_below_item(item, depth, rules)
                } else {
                    0
                },
            )
            &&& after.seen == if class_of(item, rules) is Directory {
                seen_with(rules, state.seen, ids_of_item(item, depth, rules))
            } else {
                state.seen
            }
        }),
    decreases item, 0nat, 0nat,
{
    lemma_entries_of_nothing(state.emitted);
    assert(seen_with(rules, state.seen, Set::empty()) =~= state.seen);
    match item {
        DirItem::Unreadable(_) => {},
        DirItem::Entry(child) => {
            if descends(item, depth, rules) {
                lemma_fan_directory_entries(
                    child,
                    child_path(dir, child.name@, rules.host),
                    Some(dir),
                    (depth + 1) as u16,
                    child.meta->Ok_0.device,
                    rules,
                    state,
                );
            }
        },
    }
}

/// Where every name of a file counts, every strategy emits the same
/// entries, sizes included, and gives the same total: for one tree and one
/// set of rules, the entries emitted by the depth-first walk are those
/// emitted by the walk that fans out. Every name counts where hardlinks
/// count independently; it also does where they count once and no file is
/// met under two names or was seen before the scan. (Where a file is met
/// under two names and counts once, the name that is met first has the
/// bytes, and the strategies meet names in different orders.)
pub proof fn lemma_strategies_agree_when_every_name_counts(
    root: FsNode,
    rules: WalkRules,
    first: WalkState,
    second: WalkState,
)
    requires
        every_name_counts_from_root(root, rules, first.seen),
        every_name_counts_from_root(root, rules, second.seen),
    ensures
        entries(walk_root(root, rules, first).1.emitted, first.emitted.len() as int) == entries(
            fan_root(root, rules, second).1.emitted,
            second.emitted.len() as int,
        ),
        walk_root(root, rules, first).0 == fan_root(root, rules, second).0,
{
    lemma_entries_of_nothing(first.emitted);
    lemma_entries_of_nothing(second.emitted);
    match root.meta {
        Err(_) => {},
        Ok(meta) => {
            match verdict(meta, rules) {
                Verdict::Skip => {},
                Verdict::File => {
                    lemma_a_file_counts(meta, rules, first.seen);
                    lemma_a_file_counts(meta, rules, second.seen);
                },
                Verdict::Directory => {
                    let path = normalized(root.name@, rules.host);
                    lemma_walk_directory_entries(root, path, None, 0, meta.device, rules, first);
                    lemma_fan_directory_entries(root, path, None, 0, meta.device, rules, second);
                },
            }
        },
    }
}

} // verus!
