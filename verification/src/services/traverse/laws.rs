//! What holds of every walk, whatever the tree and the options.

use vstd::prelude::*;

use super::rules::{
    children_within_limit, descends, directory_entry, extends, fan_directory, fan_item, fan_out,
    fan_root, list_item, list_items, verdict, walk_directory, walk_item, walk_items, walk_root,
    Emission, Tally, Verdict, WalkRules, WalkState,
};
use super::tree::{DirItem, FsNode};

verus! {

/// An emission that respects the depth limit and the filesystem boundary.
pub open spec fn lawful(emission: Emission, rules: WalkRules) -> bool {
    &&& rules.max_depth matches Some(max) ==> emission.entry.depth <= max
    &&& rules.boundary matches Some(device) ==> emission.device == Some(device)
}

/// `after` holds everything that `before` holds, and what it holds more
/// is lawful.
pub open spec fn grown_lawfully(before: WalkState, after: WalkState, rules: WalkRules) -> bool {
    &&& extends(before.emitted, after.emitted)
    &&& forall|i: int|
        before.emitted.len() <= i < after.emitted.len() ==> lawful(
            #[trigger] after.emitted[i],
            rules,
        )
}

/// A directory at `depth` on `device` that the rules admit.
pub open spec fn admitted(depth: u16, device: u64, rules: WalkRules) -> bool {
    &&& rules.max_depth matches Some(max) ==> depth <= max
    &&& rules.boundary matches Some(d) ==> device == d
}

proof fn lemma_directory_grows_lawfully(
    node: FsNode,
    path: Seq<char>,
    parent: Option<Seq<char>>,
    depth: u16,
    device: u64,
    rules: WalkRules,
    state: WalkState,
)
    requires
        admitted(depth, device, rules),
    ensures
        grown_lawfully(
            state,
            walk_directory(node, path, parent, depth, device, rules, state).1,
            rules,
        ),
    decreases node, 0nat, 0nat,
{
    match node.listing {
        Err(_) => {},
        Ok(items) => {
            lemma_items_grow_lawfully(
                items@,
                items@.len() as int,
                path,
                depth,
                rules,
                Tally::zero(),
                state,
            );
        },
    }
}

proof fn lemma_items_grow_lawfully(
    items: Seq<DirItem>,
    upto: int,
    dir: Seq<char>,
    depth: u16,
    rules: WalkRules,
    tally: Tally,
    state: WalkState,
)
    ensures
        grown_lawfully(state, walk_items(items, upto, dir, depth, rules, tally, state).1, rules),
    decreases items, 1nat, upto,
{
    if upto <= 0 || upto > items.len() {
    } else {
        lemma_items_grow_lawfully(items, upto - 1, dir, depth, rules, tally, state);
        let (before, mid) = walk_items(items, upto - 1, dir, depth, rules, tally, state);
        lemma_item_grows_lawfully(items[upto - 1], dir, depth, rules, before, mid);
    }
}

proof fn lemma_item_grows_lawfully(
    item: DirItem,
    dir: Seq<char>,
    depth: u16,
    rules: WalkRules,
    tally: Tally,
    state: WalkState,
)
    ensures
        grown_lawfully(state, walk_item(item, dir, depth, rules, tally, state).1, rules),
    decreases item, 0nat, 0nat,
{
    match item {
        DirItem::Unreadable(_) => {},
        DirItem::Entry(child) => {
            match child.meta {
                Err(_) => {},
                Ok(meta) => {
                    if verdict(meta, rules) is Directory && children_within_limit(depth, rules) {
                        lemma_directory_grows_lawfully(
                            child,
                            super::rules::child_path(dir, child.name@, rules.host),
                            Some(dir),
                            (depth + 1) as u16,
                            meta.device,
                            rules,
                            state,
                        );
                    }
                },
            }
        },
    }
}

/// Under a depth limit no entry emitted by a depth-first walk is deeper
/// than the limit, and under a filesystem boundary every entry emitted
/// comes from the device of the boundary.
pub proof fn lemma_walk_is_lawful(root: FsNode, rules: WalkRules, state: WalkState)
    ensures
        grown_lawfully(state, walk_root(root, rules, state).1, rules),
{
    match root.meta {
        Err(_) => {},
        Ok(meta) => {
            if verdict(meta, rules) is Directory {
                lemma_directory_grows_lawfully(
                    root,
                    super::rules::normalized(root.name@, rules.host),
                    None,
                    0,
                    meta.device,
                    rules,
                    state,
                );
            }
        },
    }
}

proof fn lemma_listing_grows_lawfully(
    items: Seq<DirItem>,
    upto: int,
    dir: Seq<char>,
    depth: u16,
    rules: WalkRules,
    tally: Tally,
    state: WalkState,
)
    ensures
        grown_lawfully(state, list_items(items, upto, dir, depth, rules, tally, state).1, rules),
    decreases upto,
{
    if upto <= 0 || upto > items.len() {
    } else {
        lemma_listing_grows_lawfully(items, upto - 1, dir, depth, rules, tally, state);
    }
}

proof fn lemma_fan_directory_grows_lawfully(
    node: FsNode,
    path: Seq<char>,
    parent: Option<Seq<char>>,
    depth: u16,
    device: u64,
    rules: WalkRules,
    state: WalkState,
)
    requires
        admitted(depth, device, rules),
    ensures
        grown_lawfully(
            state,
            fan_directory(node, path, parent, depth, device, rules, state).1,
            rules,
        ),
    decreases node, 0nat, 0nat,
{
    match node.listing {
        Err(_) => {},
        Ok(items) => {
            let n = items@.len() as int;
            lemma_listing_grows_lawfully(items@, n, path, depth, rules, Tally::zero(), state);
            let (listed, mid) = list_items(items@, n, path, depth, rules, Tally::zero(), state);
            lemma_fan_out_grows_lawfully(items@, n, path, depth, rules, listed.total, mid);
        },
    }
}

proof fn lemma_fan_out_grows_lawfully(
    items: Seq<DirItem>,
    upto: int,
    dir: Seq<char>,
    depth: u16,
    rules: WalkRules,
    total: u64,
    state: WalkState,
)
    ensures
        grown_lawfully(state, fan_out(items, upto, dir, depth, rules, total, state).1, rules),
    decreases items, 1nat, upto,
{
    if upto <= 0 || upto > items.len() {
    } else {
        lemma_fan_out_grows_lawfully(items, upto - 1, dir, depth, rules, total, state);
        let (before, mid) = fan_out(items, upto - 1, dir, depth, rules, total, state);
        lemma_fan_item_grows_lawfully(items[upto - 1], dir, depth, rules, before, mid);
    }
}

proof fn lemma_fan_item_grows_lawfully(
    item: DirItem,
    dir: Seq<char>,
    depth: u16,
    rules: WalkRules,
    total: u64,
    state: WalkState,
)
    ensures
        grown_lawfully(state, fan_item(item, dir, depth, rules, total, state).1, rules),
    decreases item, 0nat, 0nat,
{
    match item {
        DirItem::Unreadable(_) => {},
        DirItem::Entry(child) => {
            if descends(item, depth, rules) {
                lemma_fan_directory_grows_lawfully(
                    child,
                    super::rules::child_path(dir, child.name@, rules.host),
                    Some(dir),
                    (depth + 1) as u16,
                    child.meta->Ok_0.device,
                    rules,
                    state,
                );
            }
        },
    }
}

/// Under a depth limit no entry emitted by a walk that fans out is deeper
/// than the limit, and under a filesystem boundary every entry emitted
/// comes from the device of the boundary.
pub proof fn lemma_fan_walk_is_lawful(root: FsNode, rules: WalkRules, state: WalkState)
    ensures
        grown_lawfully(state, fan_root(root, rules, state).1, rules),
{
    match root.meta {
        Err(_) => {},
        Ok(meta) => {
            if verdict(meta, rules) is Directory {
                lemma_fan_directory_grows_lawfully(
                    root,
                    super::rules::normalized(root.name@, rules.host),
                    None,
                    0,
                    meta.device,
                    rules,
                    state,
                );
            }
        },
    }
}

/// The bytes of the entries at exactly `depth` among the emissions from
/// position `from` up to position `to`.
pub open spec fn bytes_at_depth(emitted: Seq<Emission>, from: int, to: int, depth: int) -> nat
    decreases to - from,
{
    if to <= from {
        0
    } else {
        bytes_at_depth(emitted, from, to - 1, depth) + if emitted[to - 1].entry.depth == depth {
            emitted[to - 1].entry.size_bytes as nat
        } else {
            0
        }
    }
}

/// A sum of bytes as a total holds it: it stops at `u64::MAX`.
pub open spec fn saturated(n: nat) -> u64 {
    if n > u64::MAX {
        u64::MAX
    } else {
        n as u64
    }
}

proof fn lemma_bytes_split(emitted: Seq<Emission>, from: int, mid: int, to: int, depth: int)
    requires
        from <= mid <= to,
    ensures
        bytes_at_depth(emitted, from, to, depth) == bytes_at_depth(emitted, from, mid, depth)
            + bytes_at_depth(emitted, mid, to, depth),
    decreases to - mid,
{
    if mid < to {
        lemma_bytes_split(emitted, from, mid, to - 1, depth);
    }
}

proof fn lemma_bytes_of_prefix(a: Seq<Emission>, b: Seq<Emission>, from: int, to: int, depth: int)
    requires
        extends(a, b),
        0 <= from,
        to <= a.len(),
    ensures
        bytes_at_depth(a, from, to, depth) == bytes_at_depth(b, from, to, depth),
    decreases to - from,
{
    if from < to {
        lemma_bytes_of_prefix(a, b, from, to - 1, depth);
        assert(b[to - 1] == a[to - 1]);
    }
}

proof fn lemma_bytes_of_deeper(emitted: Seq<Emission>, from: int, to: int, depth: int)
    requires
        0 <= from,
        to <= emitted.len(),
        forall|i: int| from <= i < to ==> (#[trigger] emitted[i]).entry.depth > depth,
    ensures
        bytes_at_depth(emitted, from, to, depth) == 0,
    decreases to - from,
{
    if from < to {
        lemma_bytes_of_deeper(emitted, from, to - 1, depth);
    }
}

/// What a walk of a directory at `depth` appends: nothing where the
/// directory cannot be listed; else entries deeper than `depth`, then the
/// directory's own entry, whose size is the total.
pub open spec fn appends_subtree(
    before: Seq<Emission>,
    after: Seq<Emission>,
    listed: bool,
    depth: u16,
    total: u64,
) -> bool {
    &&& extends(before, after)
    &&& !listed ==> after.len() == before.len() && total == 0
    &&& listed ==> {
        &&& after.len() > before.len()
        &&& after.last().entry.depth == depth
        &&& after.last().entry.size_bytes == total
        &&& forall|i: int|
            before.len() <= i < after.len() - 1 ==> (#[trigger] after[i]).entry.depth > depth
    }
}

/// What the items of a directory at `depth` append: entries deeper than
/// `depth`, whose bytes at the next depth are what the tally gains while
/// the depth limit lets the items be emitted.
pub open spec fn appends_items(
    before: Seq<Emission>,
    after: Seq<Emission>,
    depth: u16,
    rules: WalkRules,
    tally_before: Tally,
    tally_after: Tally,
) -> bool {
    &&& extends(before, after)
    &&& forall|i: int|
        before.len() <= i < after.len() ==> (#[trigger] after[i]).entry.depth > depth
    &&& children_within_limit(depth, rules) ==> forall|base: nat|
        tally_before.total == #[trigger] saturated(base) ==> tally_after.total == saturated(
            base + bytes_at_depth(after, before.len() as int, after.len() as int, depth + 1),
        )
}

proof fn lemma_directory_appends_subtree(
    node: FsNode,
    path: Seq<char>,
    parent: Option<Seq<char>>,
    depth: u16,
    device: u64,
    rules: WalkRules,
    state: WalkState,
)
    ensures
        ({
            let (total, after) = walk_directory(node, path, parent, depth, device, rules, state);
            &&& appends_subtree(state.emitted, after.emitted, node.listing is Ok, depth, total)
            &&& node.listing is Ok && children_within_limit(depth, rules) ==> total == saturated(
                bytes_at_depth(
                    after.emitted,
                    state.emitted.len() as int,
                    after.emitted.len() - 1,
                    depth + 1,
                ),
            )
        }),
    decreases node, 0nat, 0nat,
{
    match node.listing {
        Err(_) => {},
        Ok(items) => {
            let n = items@.len() as int;
            lemma_items_append(items@, n, path, depth, rules, Tally::zero(), state);
            let (tally, mid) = walk_items(items@, n, path, depth, rules, Tally::zero(), state);
            let (total, after) = walk_directory(node, path, parent, depth, device, rules, state);
            assert(after.emitted == mid.emitted.push(
                Emission { entry: directory_entry(path, parent, depth, tally), device: Some(device) },
            ));
            if children_within_limit(depth, rules) {
                assert(Tally::zero().total == saturated(0nat));
                lemma_bytes_of_prefix(
                    mid.emitted,
                    after.emitted,
                    state.emitted.len() as int,
                    mid.emitted.len() as int,
                    depth + 1,
                );
            }
        },
    }
}

proof fn lemma_items_append(
    items: Seq<DirItem>,
    upto: int,
    dir: Seq<char>,
    depth: u16,
    rules: WalkRules,
    tally: Tally,
    state: WalkState,
)
    ensures
        ({
            let (tally_after, after) = walk_items(items, upto, dir, depth, rules, tally, state);
            appends_items(state.emitted, after.emitted, depth, rules, tally, tally_after)
        }),
    decreases items, 1nat, upto,
{
    if upto <= 0 || upto > items.len() {
        assert(bytes_at_depth(
            state.emitted,
            state.emitted.len() as int,
            state.emitted.len() as int,
            depth + 1,
        ) == 0);
    } else {
        lemma_items_append(items, upto - 1, dir, depth, rules, tally, state);
        let (before, mid) = walk_items(items, upto - 1, dir, depth, rules, tally, state);
        lemma_item_appends(items[upto - 1], dir, depth, rules, before, mid);
        let (tally_after, after) = walk_item(items[upto - 1], dir, depth, rules, before, mid);
        if children_within_limit(depth, rules) {
            assert forall|base: nat| tally.total == #[trigger] saturated(base) implies tally_after.total
                == saturated(
                base + bytes_at_depth(
                    after.emitted,
                    state.emitted.len() as int,
                    after.emitted.len() as int,
                    depth + 1,
                ),
            ) by {
                let first = bytes_at_depth(
                    mid.emitted,
                    state.emitted.len() as int,
                    mid.emitted.len() as int,
                    depth + 1,
                );
                assert(before.total == saturated(base + first));
                lemma_bytes_of_prefix(
                    mid.emitted,
                    after.emitted,
                    state.emitted.len() as int,
                    mid.emitted.len() as int,
                    depth + 1,
                );
                lemma_bytes_split(
                    after.emitted,
                    state.emitted.len() as int,
                    mid.emitted.len() as int,
                    after.emitted.len() as int,
                    depth + 1,
                );
            }
        }
    }
}

proof fn lemma_item_appends(
    item: DirItem,
    dir: Seq<char>,
    depth: u16,
    rules: WalkRules,
    tally: Tally,
    state: WalkState,
)
    ensures
        ({
            let (tally_after, after) = walk_item(item, dir, depth, rules, tally, state);
            appends_items(state.emitted, after.emitted, depth, rules, tally, tally_after)
        }),
    decreases item, 0nat, 0nat,
{
    let (tally_after, after) = walk_item(item, dir, depth, rules, tally, state);
    let start = state.emitted.len() as int;
    let end = after.emitted.len() as int;
    assert(bytes_at_depth(after.emitted, start, start, depth + 1) == 0);
    match item {
        DirItem::Unreadable(_) => {},
        DirItem::Entry(child) => {
            match child.meta {
                Err(_) => {},
                Ok(meta) => {
                    match verdict(meta, rules) {
                        Verdict::Skip => {},
                        Verdict::File => {
                            if children_within_limit(depth, rules) && !super::rules::is_pseudo_entry(
                                child.name@,
                            ) {
                                assert(end == start + 1);
                                assert(bytes_at_depth(after.emitted, start, end, depth + 1)
                                    == after.emitted[start].entry.size_bytes as nat);
                            }
                        },
                        Verdict::Directory => {
                            if children_within_limit(depth, rules) && !super::rules::is_pseudo_entry(
                                child.name@,
                            ) {
                                lemma_directory_appends_subtree(
                                    child,
                                    super::rules::child_path(dir, child.name@, rules.host),
                                    Some(dir),
                                    (depth + 1) as u16,
                                    meta.device,
                                    rules,
                                    state,
                                );
                                if child.listing is Ok {
                                    lemma_bytes_of_deeper(
                                        after.emitted,
                                        start,
                                        end - 1,
                                        depth + 1,
                                    );
                                }
                            }
                        },
                    }
                },
            }
        },
    }
}

/// The size of a directory is the sum of what its immediate children
/// contribute. In a depth-first walk of a directory whose entries the depth
/// limit lets through, the walk ends with the directory's own entry, and
/// the size in that entry is the sum, stopping at `u64::MAX`, of the sizes
/// in the entries emitted for the directory's files and subdirectories: a
/// file's entry holds what the file contributes under the hardlink policy,
/// a subdirectory's entry holds its total, and a subdirectory that cannot be
/// listed contributes nothing and has no entry.
pub proof fn lemma_directory_size_is_sum_of_children(
    node: FsNode,
    path: Seq<char>,
    parent: Option<Seq<char>>,
    depth: u16,
    device: u64,
    rules: WalkRules,
    state: WalkState,
)
    requires
        node.listing is Ok,
        children_within_limit(depth, rules),
    ensures
        ({
            let (total, after) = walk_directory(node, path, parent, depth, device, rules, state);
            &&& extends(state.emitted, after.emitted)
            &&& after.emitted.len() > state.emitted.len()
            &&& after.emitted.last().entry.path == path
            &&& after.emitted.last().entry.size_bytes == total
            &&& total == saturated(
                bytes_at_depth(
                    after.emitted,
                    state.emitted.len() as int,
                    after.emitted.len() - 1,
                    depth + 1,
                ),
            )
        }),
{
    lemma_directory_appends_subtree(node, path, parent, depth, device, rules, state);
}

/// What a pass over the items of a directory at `depth` appends: entries
/// deeper than `depth`, whose bytes at the next depth are what the total
/// gains while the depth limit lets the items be emitted.
pub open spec fn appends_bytes(
    before: Seq<Emission>,
    after: Seq<Emission>,
    depth: u16,
    rules: WalkRules,
    total_before: u64,
    total_after: u64,
) -> bool {
    &&& extends(before, after)
    &&& forall|i: int|
        before.len() <= i < after.len() ==> (#[trigger] after[i]).entry.depth > depth
    &&& children_within_limit(depth, rules) ==> forall|base: nat|
        total_before == #[trigger] saturated(base) ==> total_after == saturated(
            base + bytes_at_depth(after, before.len() as int, after.len() as int, depth + 1),
        )
}

proof fn lemma_bytes_appended_in_two_steps(
    first: Seq<Emission>,
    mid: Seq<Emission>,
    last: Seq<Emission>,
    depth: u16,
    rules: WalkRules,
    a: u64,
    b: u64,
    c: u64,
)
    requires
        appends_bytes(first, mid, depth, rules, a, b),
        appends_bytes(mid, last, depth, rules, b, c),
    ensures
        appends_bytes(first, last, depth, rules, a, c),
{
    if children_within_limit(depth, rules) {
        assert forall|base: nat| a == #[trigger] saturated(base) implies c == saturated(
            base + bytes_at_depth(last, first.len() as int, last.len() as int, depth + 1),
        ) by {
            let early = bytes_at_depth(mid, first.len() as int, mid.len() as int, depth + 1);
            assert(b == saturated(base + early));
            lemma_bytes_of_prefix(mid, last, first.len() as int, mid.len() as int, depth + 1);
            lemma_bytes_split(
                last,
                first.len() as int,
                mid.len() as int,
                last.len() as int,
                depth + 1,
            );
        }
    }
}

proof fn lemma_listing_appends(
    items: Seq<DirItem>,
    upto: int,
    dir: Seq<char>,
    depth: u16,
    rules: WalkRules,
    tally: Tally,
    state: WalkState,
)
    ensures
        ({
            let (tally_after, after) = list_items(items, upto, dir, depth, rules, tally, state);
            appends_bytes(
                state.emitted,
                after.emitted,
                depth,
                rules,
                tally.total,
                tally_after.total,
            )
        }),
    decreases upto,
{
    let start = state.emitted.len() as int;
    assert(bytes_at_depth(state.emitted, start, start, depth + 1) == 0);
    if upto <= 0 || upto > items.len() {
    } else {
        lemma_listing_appends(items, upto - 1, dir, depth, rules, tally, state);
        let (before, mid) = list_items(items, upto - 1, dir, depth, rules, tally, state);
        let (tally_after, after) = list_item(items[upto - 1], dir, depth, rules, before, mid);
        let from = mid.emitted.len() as int;
        assert(bytes_at_depth(after.emitted, from, from, depth + 1) == 0);
        if after.emitted.len() > from {
            assert(after.emitted.len() == from + 1);
            assert(bytes_at_depth(after.emitted, from, from + 1, depth + 1)
                == after.emitted[from].entry.size_bytes as nat);
        }
        assert(appends_bytes(
            mid.emitted,
            after.emitted,
            depth,
            rules,
            before.total,
            tally_after.total,
        ));
        lemma_bytes_appended_in_two_steps(
            state.emitted,
            mid.emitted,
            after.emitted,
            depth,
            rules,
            tally.total,
            before.total,
            tally_after.total,
        );
    }
}

proof fn lemma_fan_directory_appends_subtree(
    node: FsNode,
    path: Seq<char>,
    parent: Option<Seq<char>>,
    depth: u16,
    device: u64,
    rules: WalkRules,
    state: WalkState,
)
    ensures
        ({
            let (total, after) = fan_directory(node, path, parent, depth, device, rules, state);
            &&& appends_subtree(state.emitted, after.emitted, node.listing is Ok, depth, total)
            &&& node.listing is Ok && children_within_limit(depth, rules) ==> total == saturated(
                bytes_at_depth(
                    after.emitted,
                    state.emitted.len() as int,
                    after.emitted.len() - 1,
                    depth + 1,
                ),
            )
        }),
    decreases node, 0nat, 0nat,
{
    match node.listing {
        Err(_) => {},
        Ok(items) => {
            let n = items@.len() as int;
            lemma_listing_appends(items@, n, path, depth, rules, Tally::zero(), state);
            let (listed, mid) = list_items(items@, n, path, depth, rules, Tally::zero(), state);
            lemma_fan_out_appends(items@, n, path, depth, rules, listed.total, mid);
            let (total, late) = fan_out(items@, n, path, depth, rules, listed.total, mid);
            lemma_bytes_appended_in_two_steps(
                state.emitted,
                mid.emitted,
                late.emitted,
                depth,
                rules,
                0,
                listed.total,
                total,
            );
            let after = fan_directory(node, path, parent, depth, device, rules, state).1;
            let tally = Tally { total, ..listed };
            assert(after.emitted == late.emitted.push(
                Emission { entry: directory_entry(path, parent, depth, tally), device: Some(device) },
            ));
            if children_within_limit(depth, rules) {
                assert(0u64 == saturated(0nat));
                lemma_bytes_of_prefix(
                    late.emitted,
                    after.emitted,
                    state.emitted.len() as int,
                    late.emitted.len() as int,
                    depth + 1,
                );
            }
        },
    }
}

proof fn lemma_fan_out_appends(
    items: Seq<DirItem>,
    upto: int,
    dir: Seq<char>,
    depth: u16,
    rules: WalkRules,
    total: u64,
    state: WalkState,
)
    ensures
        ({
            let (total_after, after) = fan_out(items, upto, dir, depth, rules, total, state);
            appends_bytes(state.emitted, after.emitted, depth, rules, total, total_after)
        }),
    decreases items, 1nat, upto,
{
    let start = state.emitted.len() as int;
    assert(bytes_at_depth(state.emitted, start, start, depth + 1) == 0);
    if upto <= 0 || upto > items.len() {
    } else {
        lemma_fan_out_appends(items, upto - 1, dir, depth, rules, total, state);
        let (before, mid) = fan_out(items, upto - 1, dir, depth, rules, total, state);
        lemma_fan_item_appends(items[upto - 1], dir, depth, rules, before, mid);
        let (total_after, after) = fan_item(items[upto - 1], dir, depth, rules, before, mid);
        lemma_bytes_appended_in_two_steps(
            state.emitted,
            mid.emitted,
            after.emitted,
            depth,
            rules,
            total,
            before,
            total_after,
        );
    }
}

proof fn lemma_fan_item_appends(
    item: DirItem,
    dir: Seq<char>,
    depth: u16,
    rules: WalkRules,
    total: u64,
    state: WalkState,
)
    ensures
        ({
            let (total_after, after) = fan_item(item, dir, depth, rules, total, state);
            appends_bytes(state.emitted, after.emitted, depth, rules, total, total_after)
        }),
    decreases item, 0nat, 0nat,
{
    let (total_after, after) = fan_item(item, dir, depth, rules, total, state);
    let start = state.emitted.len() as int;
    let end = after.emitted.len() as int;
    assert(bytes_at_depth(after.emitted, start, start, depth + 1) == 0);
    match item {
        DirItem::Unreadable(_) => {},
        DirItem::Entry(child) => {
            if descends(item, depth, rules) {
                lemma_fan_directory_appends_subtree(
                    child,
                    super::rules::child_path(dir, child.name@, rules.host),
                    Some(dir),
                    (depth + 1) as u16,
                    child.meta->Ok_0.device,
                    rules,
                    state,
                );
                if child.listing is Ok {
                    lemma_bytes_of_deeper(after.emitted, start, end - 1, depth + 1);
                }
            }
        },
    }
}

/// The size of a directory is the sum of what its immediate children
/// contribute, also where the walk fans out: the walk of a directory whose
/// entries the depth limit lets through ends with the directory's own entry,
/// and the size in that entry is the sum, stopping at `u64::MAX`, of the
/// sizes in the entries emitted for the directory's files and
/// subdirectories.
pub proof fn lemma_fanned_directory_size_is_sum_of_children(
    node: FsNode,
    path: Seq<char>,
    parent: Option<Seq<char>>,
    depth: u16,
    device: u64,
    rules: WalkRules,
    state: WalkState,
)
    requires
        node.listing is Ok,
        children_within_limit(depth, rules),
    ensures
        ({
            let (total, after) = fan_directory(node, path, parent, depth, device, rules, state);
            &&& extends(state.emitted, after.emitted)
            &&& after.emitted.len() > state.emitted.len()
            &&& after.emitted.last().entry.path == path
            &&& after.emitted.last().entry.size_bytes == total
            &&& total == saturated(
                bytes_at_depth(
                    after.emitted,
                    state.emitted.len() as int,
                    after.emitted.len() - 1,
                    depth + 1,
                ),
            )
        }),
{
    lemma_fan_directory_appends_subtree(node, path, parent, depth, device, rules, state);
}

/// Whether a path holds no backslash.
pub open spec fn slashes_only(path: Seq<char>) -> bool {
    forall|i: int| 0 <= i < path.len() ==> #[trigger] path[i] != '\\'
}

/// A path stored on a Windows host holds no backslash, and neither does
/// the stored path of an entry of a directory that holds none.
pub proof fn lemma_stored_paths_have_no_backslash(dir: Seq<char>, name: Seq<char>)
    ensures
        slashes_only(super::rules::normalized(name, super::detect::HostOs::Windows)),
        slashes_only(dir) ==> slashes_only(
            super::rules::child_path(dir, name, super::detect::HostOs::Windows),
        ),
        slashes_only(dir) ==> slashes_only(super::rules::with_separator(dir)),
{
}

/// Whether the entry at position `i` has its parent among the emissions
/// from position `from` on: an entry one level up whose path is the parent
/// path of the entry.
pub open spec fn has_parent_among(emitted: Seq<Emission>, from: int, i: int) -> bool {
    exists|j: int|
        from <= j < emitted.len() && emitted[i].entry.parent_path == Some(
            (#[trigger] emitted[j]).entry.path,
        ) && emitted[j].entry.depth + 1 == emitted[i].entry.depth
}

/// What the walk of a directory appends, as a family: every entry but the
/// last has its parent among the entries appended, and the last is the
/// entry of the directory itself.
pub open spec fn appends_a_family(
    before: Seq<Emission>,
    after: Seq<Emission>,
    listed: bool,
    path: Seq<char>,
    parent: Option<Seq<char>>,
    depth: u16,
) -> bool {
    &&& extends(before, after)
    &&& !listed ==> after.len() == before.len()
    &&& listed ==> {
        &&& after.len() > before.len()
        &&& after.last().entry.path == path
        &&& after.last().entry.parent_path == parent
        &&& after.last().entry.depth == depth
        &&& forall|i: int|
            before.len() <= i < after.len() - 1 ==> #[trigger] has_parent_among(
                after,
                before.len() as int,
                i,
            )
    }
}

/// What the items of a directory append: entries that have their parents
/// among the entries appended, or are children of the directory.
pub open spec fn appends_children(
    before: Seq<Emission>,
    after: Seq<Emission>,
    dir: Seq<char>,
    depth: u16,
) -> bool {
    &&& extends(before, after)
    &&& forall|i: int|
        before.len() <= i < after.len() ==> #[trigger] has_parent_among(
            after,
            before.len() as int,
            i,
        ) || (after[i].entry.parent_path == Some(dir) && after[i].entry.depth == depth + 1)
}

proof fn lemma_parent_stays(a: Seq<Emission>, b: Seq<Emission>, from: int, lower: int, i: int)
    requires
        extends(a, b),
        0 <= lower <= from <= i < a.len(),
        has_parent_among(a, from, i),
    ensures
        has_parent_among(b, lower, i),
{
    let j = choose|j: int|
        from <= j < a.len() && a[i].entry.parent_path == Some((#[trigger] a[j]).entry.path)
            && a[j].entry.depth + 1 == a[i].entry.depth;
    assert(b[j] == a[j]);
    assert(b[i] == a[i]);
}

proof fn lemma_children_in_two_steps(
    first: Seq<Emission>,
    mid: Seq<Emission>,
    last: Seq<Emission>,
    dir: Seq<char>,
    depth: u16,
)
    requires
        appends_children(first, mid, dir, depth),
        appends_children(mid, last, dir, depth),
    ensures
        appends_children(first, last, dir, depth),
{
    let from = first.len() as int;
    assert forall|i: int| from <= i < last.len() implies #[trigger] has_parent_among(
        last,
        from,
        i,
    ) || (last[i].entry.parent_path == Some(dir) && last[i].entry.depth == depth + 1) by {
        if i < mid.len() {
            assert(last[i] == mid[i]);
            if has_parent_among(mid, from, i) {
                lemma_parent_stays(mid, last, from, from, i);
            }
        } else {
            if has_parent_among(last, mid.len() as int, i) {
                let j = choose|j: int|
                    mid.len() <= j < last.len() && last[i].entry.parent_path == Some(
                        (#[trigger] last[j]).entry.path,
                    ) && last[j].entry.depth + 1 == last[i].entry.depth;
                assert(from <= j);
            }
        }
    }
}

proof fn lemma_directory_appends_a_family(
    node: FsNode,
    path: Seq<char>,
    parent: Option<Seq<char>>,
    depth: u16,
    device: u64,
    rules: WalkRules,
    state: WalkState,
)
    ensures
        appends_a_family(
            state.emitted,
            walk_directory(node, path, parent, depth, device, rules, state).1.emitted,
            node.listing is Ok,
            path,
            parent,
            depth,
        ),
    decreases node, 0nat, 0nat,
{
    match node.listing {
        Err(_) => {},
        Ok(items) => {
            let n = items@.len() as int;
            lemma_items_append_children(items@, n, path, depth, rules, Tally::zero(), state);
            let (tally, mid) = walk_items(items@, n, path, depth, rules, Tally::zero(), state);
            let after = walk_directory(node, path, parent, depth, device, rules, state).1;
            let from = state.emitted.len() as int;
            assert(after.emitted == mid.emitted.push(
                Emission { entry: directory_entry(path, parent, depth, tally), device: Some(device) },
            ));
            assert forall|i: int| from <= i < after.emitted.len() - 1 implies #[trigger] has_parent_among(
                after.emitted,
                from,
                i,
            ) by {
                assert(after.emitted[i] == mid.emitted[i]);
                if has_parent_among(mid.emitted, from, i) {
                    lemma_parent_stays(mid.emitted, after.emitted, from, from, i);
                } else {
                    assert(after.emitted[after.emitted.len() - 1].entry.path == path);
                }
            }
        },
    }
}

proof fn lemma_items_append_children(
    items: Seq<DirItem>,
    upto: int,
    dir: Seq<char>,
    depth: u16,
    rules: WalkRules,
    tally: Tally,
    state: WalkState,
)
    ensures
        appends_children(
            state.emitted,
            walk_items(items, upto, dir, depth, rules, tally, state).1.emitted,
            dir,
            depth,
        ),
    decreases items, 1nat, upto,
{
    if upto <= 0 || upto > items.len() {
    } else {
        lemma_items_append_children(items, upto - 1, dir, depth, rules, tally, state);
        let (before, mid) = walk_items(items, upto - 1, dir, depth, rules, tally, state);
        lemma_item_appends_children(items[upto - 1], dir, depth, rules, before, mid);
        let after = walk_item(items[upto - 1], dir, depth, rules, before, mid).1;
        lemma_children_in_two_steps(state.emitted, mid.emitted, after.emitted, dir, depth);
    }
}

proof fn lemma_item_appends_children(
    item: DirItem,
    dir: Seq<char>,
    depth: u16,
    rules: WalkRules,
    tally: Tally,
    state: WalkState,
)
    ensures
        appends_children(
            state.emitted,
            walk_item(item, dir, depth, rules, tally, state).1.emitted,
            dir,
            depth,
        ),
    decreases item, 0nat, 0nat,
{
    let after = walk_item(item, dir, depth, rules, tally, state).1;
    let from = state.emitted.len() as int;
    match item {
        DirItem::Unreadable(_) => {},
        DirItem::Entry(child) => {
            match child.meta {
                Err(_) => {},
                Ok(meta) => {
                    if verdict(meta, rules) is Directory && children_within_limit(depth, rules)
                        && !super::rules::is_pseudo_entry(child.name@) {
                        lemma_directory_appends_a_family(
                            child,
                            super::rules::child_path(dir, child.name@, rules.host),
                            Some(dir),
                            (depth + 1) as u16,
                            meta.device,
                            rules,
                            state,
                        );
                        if child.listing is Ok {
                            let last = after.emitted.len() - 1;
                            assert(after.emitted[last].entry.parent_path == Some(dir));
                        }
                    }
                },
            }
        },
    }
}

/// Every entry has its parent: in what a depth-first walk of a scan emits,
/// the root's entry has no parent path, and every other entry has a parent
/// path under which an entry one level up was emitted. (A directory that
/// cannot be listed has no entry, and nothing below it has one.)
pub proof fn lemma_every_entry_has_its_parent(root: FsNode, rules: WalkRules, state: WalkState)
    ensures
        ({
            let after = walk_root(root, rules, state).1.emitted;
            let from = state.emitted.len() as int;
            &&& extends(state.emitted, after)
            &&& after.len() > from ==> after.last().entry.parent_path is None
                && after.last().entry.depth == 0
            &&& forall|i: int| from <= i < after.len() - 1 ==> #[trigger] has_parent_among(after, from, i)
        }),
{
    match root.meta {
        Err(_) => {},
        Ok(meta) => {
            if verdict(meta, rules) is Directory {
                lemma_directory_appends_a_family(
                    root,
                    super::rules::normalized(root.name@, rules.host),
                    None,
                    0,
                    meta.device,
                    rules,
                    state,
                );
            }
        },
    }
}

proof fn lemma_listing_appends_children(
    items: Seq<DirItem>,
    upto: int,
    dir: Seq<char>,
    depth: u16,
    rules: WalkRules,
    tally: Tally,
    state: WalkState,
)
    ensures
        appends_children(
            state.emitted,
            list_items(items, upto, dir, depth, rules, tally, state).1.emitted,
            dir,
            depth,
        ),
    decreases upto,
{
    if upto <= 0 || upto > items.len() {
    } else {
        lemma_listing_appends_children(items, upto - 1, dir, depth, rules, tally, state);
        let (before, mid) = list_items(items, upto - 1, dir, depth, rules, tally, state);
        let after = list_item(items[upto - 1], dir, depth, rules, before, mid).1;
        assert(appends_children(mid.emitted, after.emitted, dir, depth));
        lemma_children_in_two_steps(state.emitted, mid.emitted, after.emitted, dir, depth);
    }
}

proof fn lemma_fan_directory_appends_a_family(
    node: FsNode,
    path: Seq<char>,
    parent: Option<Seq<char>>,
    depth: u16,
    device: u64,
    rules: WalkRules,
    state: WalkState,
)
    ensures
        appends_a_family(
            state.emitted,
            fan_directory(node, path, parent, depth, device, rules, state).1.emitted,
            node.listing is Ok,
            path,
            parent,
            depth,
        ),
    decreases node, 0nat, 0nat,
{
    match node.listing {
        Err(_) => {},
        Ok(items) => {
            let n = items@.len() as int;
            let from = state.emitted.len() as int;
            lemma_listing_appends_children(items@, n, path, depth, rules, Tally::zero(), state);
            let (listed, mid) = list_items(items@, n, path, depth, rules, Tally::zero(), state);
            lemma_fan_out_appends_children(items@, n, path, depth, rules, listed.total, mid);
            let (total, late) = fan_out(items@, n, path, depth, rules, listed.total, mid);
            lemma_children_in_two_steps(state.emitted, mid.emitted, late.emitted, path, depth);
            let after = fan_directory(node, path, parent, depth, device, rules, state).1;
            let tally = Tally { total, ..listed };
            assert(after.emitted == late.emitted.push(
                Emission { entry: directory_entry(path, parent, depth, tally), device: Some(device) },
            ));
            assert forall|i: int| from <= i < after.emitted.len() - 1 implies #[trigger] has_parent_among(
                after.emitted,
                from,
                i,
            ) by {
                assert(after.emitted[i] == late.emitted[i]);
                if has_parent_among(late.emitted, from, i) {
                    lemma_parent_stays(late.emitted, after.emitted, from, from, i);
                } else {
                    assert(after.emitted[after.emitted.len() - 1].entry.path == path);
                }
            }
        },
    }
}

proof fn lemma_fan_out_appends_children(
    items: Seq<DirItem>,
    upto: int,
    dir: Seq<char>,
    depth: u16,
    rules: WalkRules,
    total: u64,
    state: WalkState,
)
    ensures
        appends_children(
            state.emitted,
            fan_out(items, upto, dir, depth, rules, total, state).1.emitted,
            dir,
            depth,
        ),
    decreases items, 1nat, upto,
{
    if upto <= 0 || upto > items.len() {
    } else {
        lemma_fan_out_appends_children(items, upto - 1, dir, depth, rules, total, state);
        let (before, mid) = fan_out(items, upto - 1, dir, depth, rules, total, state);
        lemma_fan_item_appends_children(items[upto - 1], dir, depth, rules, before, mid);
        let after = fan_item(items[upto - 1], dir, depth, rules, before, mid).1;
        lemma_children_in_two_steps(state.emitted, mid.emitted, after.emitted, dir, depth);
    }
}

proof fn lemma_fan_item_appends_children(
    item: DirItem,
    dir: Seq<char>,
    depth: u16,
    rules: WalkRules,
    total: u64,
    state: WalkState,
)
    ensures
        appends_children(
            state.emitted,
            fan_item(item, dir, depth, rules, total, state).1.emitted,
            dir,
            depth,
        ),
    decreases item, 0nat, 0nat,
{
    let after = fan_item(item, dir, depth, rules, total, state).1;
    match item {
        DirItem::Unreadable(_) => {},
        DirItem::Entry(child) => {
            if descends(item, depth, rules) {
                lemma_fan_directory_appends_a_family(
                    child,
                    super::rules::child_path(dir, child.name@, rules.host),
                    Some(dir),
                    (depth + 1) as u16,
                    child.meta->Ok_0.device,
                    rules,
                    state,
                );
                if child.listing is Ok {
                    let last = after.emitted.len() - 1;
                    assert(after.emitted[last].entry.parent_path == Some(dir));
                }
            }
        },
    }
}

/// Every entry has its parent, also where the walk fans out: the root's
/// entry has no parent path, and every other entry has a parent path under
/// which an entry one level up was emitted.
pub proof fn lemma_every_fanned_entry_has_its_parent(
    root: FsNode,
    rules: WalkRules,
    state: WalkState,
)
    ensures
        ({
            let after = fan_root(root, rules, state).1.emitted;
            let from = state.emitted.len() as int;
            &&& extends(state.emitted, after)
            &&& after.len() > from ==> after.last().entry.parent_path is None
                && after.last().entry.depth == 0
            &&& forall|i: int| from <= i < after.len() - 1 ==> #[trigger] has_parent_among(after, from, i)
        }),
{
    match root.meta {
        Err(_) => {},
        Ok(meta) => {
            if verdict(meta, rules) is Directory {
                lemma_fan_directory_appends_a_family(
                    root,
                    super::rules::normalized(root.name@, rules.host),
                    None,
                    0,
                    meta.device,
                    rules,
                    state,
                );
            }
        },
    }
}

} // verus!
