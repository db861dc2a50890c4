//! The strategies agree: a depth-first walk and a walk that fans out emit
//! entries for the same paths with the same counts.

use vstd::prelude::*;

use super::rules::{
    child_path, children_within_limit, descends, directory_entry, extends, fan_directory,
    fan_item, fan_out, fan_root, is_pseudo_entry, list_item, list_items, normalized, sat_inc,
    verdict, walk_directory, walk_item, walk_items, walk_root, Emission, Tally, Verdict,
    WalkRules, WalkState,
};
use super::tree::{DirItem, FsNode};

verus! {

/// What an entry says of the shape of the tree: its path and its counts.
pub struct Shape {
    pub path: Seq<char>,
    pub file_count: u32,
    pub dir_count: u32,
}

/// The shape that an emission gives.
pub open spec fn shape_of(emission: Emission) -> Shape {
    Shape {
        path: emission.entry.path,
        file_count: emission.entry.file_count,
        dir_count: emission.entry.dir_count,
    }
}

/// The shapes of the emissions from position `from` on.
pub open spec fn shapes(emitted: Seq<Emission>, from: int) -> Set<Shape> {
    Set::new(|s: Shape| exists|i: int| from <= i < emitted.len() && shape_of(emitted[i]) == s)
}

/// The numbers of files and of subdirectories among the first `upto` items
/// of a directory, as its entry holds them.
pub open spec fn census(items: Seq<DirItem>, upto: int, rules: WalkRules) -> (u32, u32)
    decreases upto,
{
    if upto <= 0 || upto > items.len() {
        (0, 0)
    } else {
        let (files, dirs) = census(items, upto - 1, rules);
        match class_of(items[upto - 1], rules) {
            Verdict::Skip => (files, dirs),
            Verdict::File => (sat_inc(files), dirs),
            Verdict::Directory => (files, sat_inc(dirs)),
        }
    }
}

/// What a directory takes an item for.
pub open spec fn class_of(item: DirItem, rules: WalkRules) -> Verdict {
    match item {
        DirItem::Unreadable(_) => Verdict::Skip,
        DirItem::Entry(child) => if is_pseudo_entry(child.name@) {
            Verdict::Skip
        } else {
            match child.meta {
                Err(_) => Verdict::Skip,
                Ok(meta) => verdict(meta, rules),
            }
        },
    }
}

/// The shapes that the walk of a directory gives, whatever the strategy
/// and whatever was seen before.
pub open spec fn footprint(node: FsNode, path: Seq<char>, depth: u16, rules: WalkRules) -> Set<
    Shape,
>
    decreases node, 0nat, 0nat,
{
    match node.listing {
        Err(_) => Set::empty(),
        Ok(items) => {
            let (files, dirs) = census(items@, items@.len() as int, rules);
            footprint_of_items(items@, items@.len() as int, path, depth, rules).insert(
                Shape { path, file_count: files, dir_count: dirs },
            )
        },
    }
}

/// The shapes that the first `upto` items of a directory give.
pub open spec fn footprint_of_items(
    items: Seq<DirItem>,
    upto: int,
    dir: Seq<char>,
    depth: u16,
    rules: WalkRules,
) -> Set<Shape>
    decreases items, 1nat, upto,
{
    if upto <= 0 || upto > items.len() {
        Set::empty()
    } else {
        footprint_of_items(items, upto - 1, dir, depth, rules).union(
            footprint_of_item(items[upto - 1], dir, depth, rules),
        )
    }
}

/// The shapes that one item of a directory gives.
pub open spec fn footprint_of_item(item: DirItem, dir: Seq<char>, depth: u16, rules: WalkRules)
    -> Set<Shape>
    decreases item, 0nat, 0nat,
{
    match item {
        DirItem::Unreadable(_) => Set::empty(),
        DirItem::Entry(child) => if !children_within_limit(depth, rules) {
            Set::empty()
        } else {
            match class_of(item, rules) {
                Verdict::Skip => Set::empty(),
                Verdict::File => set![Shape {
                    path: child_path(dir, child.name@, rules.host),
                    file_count: 0,
                    dir_count: 0,
                }],
                Verdict::Directory => footprint(
                    child,
                    child_path(dir, child.name@, rules.host),
                    (depth + 1) as u16,
                    rules,
                ),
            }
        },
    }
}

/// The shapes that the walk of a whole scan gives.
pub open spec fn footprint_of_root(root: FsNode, rules: WalkRules) -> Set<Shape> {
    match root.meta {
        Err(_) => Set::empty(),
        Ok(meta) => match verdict(meta, rules) {
            Verdict::Directory => footprint(root, normalized(root.name@, rules.host), 0, rules),
            _ => Set::empty(),
        },
    }
}

proof fn lemma_shapes_of_nothing(emitted: Seq<Emission>)
    ensures
        shapes(emitted, emitted.len() as int) == Set::<Shape>::empty(),
{
    assert(shapes(emitted, emitted.len() as int) =~= Set::<Shape>::empty());
}

proof fn lemma_shapes_of_push(emitted: Seq<Emission>, from: int, emission: Emission)
    requires
        0 <= from <= emitted.len(),
    ensures
        shapes(emitted.push(emission), from) == shapes(emitted, from).insert(shape_of(emission)),
{
    let longer = emitted.push(emission);
    assert forall|s: Shape| shapes(longer, from).contains(s) implies shapes(emitted, from).insert(
        shape_of(emission),
    ).contains(s) by {
        let i = choose|i: int| from <= i < longer.len() && shape_of(longer[i]) == s;
        if i < emitted.len() {
            assert(longer[i] == emitted[i]);
        }
    }
    assert forall|s: Shape|
        shapes(emitted, from).insert(shape_of(emission)).contains(s) implies shapes(
        longer,
        from,
    ).contains(s) by {
        if s == shape_of(emission) {
            assert(shape_of(longer[emitted.len() as int]) == s);
        } else {
            let i = choose|i: int| from <= i < emitted.len() && shape_of(emitted[i]) == s;
            assert(longer[i] == emitted[i]);
        }
    }
    assert(shapes(longer, from) =~= shapes(emitted, from).insert(shape_of(emission)));
}

proof fn lemma_shapes_in_two_parts(a: Seq<Emission>, b: Seq<Emission>, from: int)
    requires
        0 <= from <= a.len(),
        extends(a, b),
    ensures
        shapes(b, from) == shapes(a, from).union(shapes(b, a.len() as int)),
{
    assert forall|s: Shape| shapes(b, from).contains(s) implies shapes(a, from).union(
        shapes(b, a.len() as int),
    ).contains(s) by {
        let i = choose|i: int| from <= i < b.len() && shape_of(b[i]) == s;
        if i < a.len() {
            assert(b[i] == a[i]);
            assert(shape_of(a[i]) == s);
        }
    }
    assert forall|s: Shape|
        shapes(a, from).union(shapes(b, a.len() as int)).contains(s) implies shapes(
        b,
        from,
    ).contains(s) by {
        if shapes(a, from).contains(s) {
            let i = choose|i: int| from <= i < a.len() && shape_of(a[i]) == s;
            assert(b[i] == a[i]);
            assert(shape_of(b[i]) == s);
        } else {
            let i = choose|i: int| a.len() <= i < b.len() && shape_of(b[i]) == s;
            assert(shape_of(b[i]) == s);
        }
    }
    assert(shapes(b, from) =~= shapes(a, from).union(shapes(b, a.len() as int)));
}

proof fn lemma_walk_directory_shapes(
    node: FsNode,
    path: Seq<char>,
    parent: Option<Seq<char>>,
    depth: u16,
    device: u64,
    rules: WalkRules,
    state: WalkState,
)
    ensures
        ({
            let after = walk_directory(node, path, parent, depth, device, rules, state).1;
            &&& extends(state.emitted, after.emitted)
            &&& shapes(after.emitted, state.emitted.len() as int) == footprint(
                node,
                path,
                depth,
                rules,
            )
        }),
    decreases node, 0nat, 0nat,
{
    match node.listing {
        Err(_) => {
            lemma_shapes_of_nothing(state.emitted);
        },
        Ok(items) => {
            let n = items@.len() as int;
            lemma_walk_items_shapes(items@, n, path, depth, rules, Tally::zero(), state);
            let (tally, mid) = walk_items(items@, n, path, depth, rules, Tally::zero(), state);
            lemma_shapes_of_push(
                mid.emitted,
                state.emitted.len() as int,
                Emission { entry: directory_entry(path, parent, depth, tally), device: Some(device) },
            );
        },
    }
}

proof fn lemma_walk_items_shapes(
    items: Seq<DirItem>,
    upto: int,
    dir: Seq<char>,
    depth: u16,
    rules: WalkRules,
    tally: Tally,
    state: WalkState,
)
    requires
        tally.files == 0,
        tally.dirs == 0,
    ensures
        ({
            let (tally_after, after) = walk_items(items, upto, dir, depth, rules, tally, state);
            &&& extends(state.emitted, after.emitted)
            &&& shapes(after.emitted, state.emitted.len() as int) == footprint_of_items(
                items,
                upto,
                dir,
                depth,
                rules,
            )
            &&& (tally_after.files, tally_after.dirs) == census(items, upto, rules)
        }),
    decreases items, 1nat, upto,
{
    if upto <= 0 || upto > items.len() {
        lemma_shapes_of_nothing(state.emitted);
    } else {
        lemma_walk_items_shapes(items, upto - 1, dir, depth, rules, tally, state);
        let (before, mid) = walk_items(items, upto - 1, dir, depth, rules, tally, state);
        lemma_walk_item_shapes(items[upto - 1], dir, depth, rules, before, mid);
        let after = walk_item(items[upto - 1], dir, depth, rules, before, mid).1;
        lemma_shapes_in_two_parts(mid.emitted, after.emitted, state.emitted.len() as int);
    }
}

proof fn lemma_walk_item_shapes(
    item: DirItem,
    dir: Seq<char>,
    depth: u16,
    rules: WalkRules,
    tally: Tally,
    state: WalkState,
)
    ensures
        ({
            let (tally_after, after) = walk_item(item, dir, depth, rules, tally, state);
            &&& extends(state.emitted, after.emitted)
            &&& shapes(after.emitted, state.emitted.len() as int) == footprint_of_item(
                item,
                dir,
                depth,
                rules,
            )
            &&& tally_after.files == match class_of(item, rules) {
                Verdict::File => sat_inc(tally.files),
                _ => tally.files,
            }
            &&& tally_after.dirs == match class_of(item, rules) {
                Verdict::Directory => sat_inc(tally.dirs),
                _ => tally.dirs,
            }
        }),
    decreases item, 0nat, 0nat,
{
    let after = walk_item(item, dir, depth, rules, tally, state).1;
    match item {
        DirItem::Unreadable(_) => {
            lemma_shapes_of_nothing(state.emitted);
        },
        DirItem::Entry(child) => {
            match class_of(item, rules) {
                Verdict::Skip => {
                    lemma_shapes_of_nothing(state.emitted);
                },
                Verdict::File => {
                    if children_within_limit(depth, rules) {
                        lemma_shapes_of_nothing(state.emitted);
                        lemma_shapes_of_push(
                            state.emitted,
                            state.emitted.len() as int,
                            after.emitted.last(),
                        );
                        assert(after.emitted =~= state.emitted.push(after.emitted.last()));
                        assert(footprint_of_item(item, dir, depth, rules) =~= Set::<
                            Shape,
                        >::empty().insert(shape_of(after.emitted.last())));
                    } else {
                        lemma_shapes_of_nothing(state.emitted);
                    }
                },
                Verdict::Directory => {
                    if children_within_limit(depth, rules) {
                        lemma_walk_directory_shapes(
                            child,
                            child_path(dir, child.name@, rules.host),
                            Some(dir),
                            (depth + 1) as u16,
                            child.meta->Ok_0.device,
                            rules,
                            state,
                        );
                    } else {
                        lemma_shapes_of_nothing(state.emitted);
                    }
                },
            }
        },
    }
}

/// The shapes that the items taken for `class` give among the first `upto`
/// items of a directory.
pub open spec fn footprint_of_class(
    items: Seq<DirItem>,
    upto: int,
    dir: Seq<char>,
    depth: u16,
    rules: WalkRules,
    class: Verdict,
) -> Set<Shape>
    decreases upto,
{
    if upto <= 0 || upto > items.len() {
        Set::empty()
    } else {
        let rest = footprint_of_class(items, upto - 1, dir, depth, rules, class);
        if class_of(items[upto - 1], rules) == class {
            rest.union(footprint_of_item(items[upto - 1], dir, depth, rules))
        } else {
            rest
        }
    }
}

proof fn lemma_footprint_by_class(
    items: Seq<DirItem>,
    upto: int,
    dir: Seq<char>,
    depth: u16,
    rules: WalkRules,
)
    ensures
        footprint_of_items(items, upto, dir, depth, rules) == footprint_of_class(
            items,
            upto,
            dir,
            depth,
            rules,
            Verdict::File,
        ).union(footprint_of_class(items, upto, dir, depth, rules, Verdict::Directory)),
    decreases upto,
{
    let files = footprint_of_class(items, upto, dir, depth, rules, Verdict::File);
    let dirs = footprint_of_class(items, upto, dir, depth, rules, Verdict::Directory);
    if upto <= 0 || upto > items.len() {
        assert(footprint_of_items(items, upto, dir, depth, rules) =~= files.union(dirs));
    } else {
        lemma_footprint_by_class(items, upto - 1, dir, depth, rules);
        let item = items[upto - 1];
        let own = footprint_of_item(item, dir, depth, rules);
        let files_before = footprint_of_class(items, upto - 1, dir, depth, rules, Verdict::File);
        let dirs_before = footprint_of_class(
            items,
            upto - 1,
            dir,
            depth,
            rules,
            Verdict::Directory,
        );
        match class_of(item, rules) {
            Verdict::Skip => {
                assert(own =~= Set::<Shape>::empty());
                assert(files == files_before);
                assert(dirs == dirs_before);
            },
            Verdict::File => {
                assert(files == files_before.union(own));
                assert(dirs == dirs_before);
            },
            Verdict::Directory => {
                assert(files == files_before);
                assert(dirs == dirs_before.union(own));
            },
        }
        assert(footprint_of_items(items, upto, dir, depth, rules) == files_before.union(
            dirs_before,
        ).union(own));
        assert(footprint_of_items(items, upto, dir, depth, rules) =~= files.union(dirs));
    }
}

proof fn lemma_list_items_shapes(
    items: Seq<DirItem>,
    upto: int,
    dir: Seq<char>,
    depth: u16,
    rules: WalkRules,
    tally: Tally,
    state: WalkState,
)
    requires
        tally.files == 0,
        tally.dirs == 0,
    ensures
        ({
            let (tally_after, after) = list_items(items, upto, dir, depth, rules, tally, state);
            &&& extends(state.emitted, after.emitted)
            &&& shapes(after.emitted, state.emitted.len() as int) == footprint_of_class(
                items,
                upto,
                dir,
                depth,
                rules,
                Verdict::File,
            )
            &&& (tally_after.files, tally_after.dirs) == census(items, upto, rules)
        }),
    decreases upto,
{
    if upto <= 0 || upto > items.len() {
        lemma_shapes_of_nothing(state.emitted);
    } else {
        lemma_list_items_shapes(items, upto - 1, dir, depth, rules, tally, state);
        let (before, mid) = list_items(items, upto - 1, dir, depth, rules, tally, state);
        let item = items[upto - 1];
        let after = list_item(item, dir, depth, rules, before, mid).1;
        lemma_shapes_of_nothing(mid.emitted);
        if class_of(item, rules) is File && children_within_limit(depth, rules) {
            lemma_shapes_of_push(mid.emitted, mid.emitted.len() as int, after.emitted.last());
            assert(after.emitted =~= mid.emitted.push(after.emitted.last()));
            assert(footprint_of_item(item, dir, depth, rules) =~= Set::<Shape>::empty().insert(
                shape_of(after.emitted.last()),
            ));
        }
        lemma_shapes_in_two_parts(mid.emitted, after.emitted, state.emitted.len() as int);
        assert(shapes(after.emitted, state.emitted.len() as int) =~= footprint_of_class(
            items,
            upto,
            dir,
            depth,
            rules,
            Verdict::File,
        ));
    }
}

proof fn lemma_fan_directory_shapes(
    node: FsNode,
    path: Seq<char>,
    parent: Option<Seq<char>>,
    depth: u16,
    device: u64,
    rules: WalkRules,
    state: WalkState,
)
    ensures
        ({
            let after = fan_directory(node, path, parent, depth, device, rules, state).1;
            &&& extends(state.emitted, after.emitted)
            &&& shapes(after.emitted, state.emitted.len() as int) == footprint(
                node,
                path,
                depth,
                rules,
            )
        }),
    decreases node, 0nat, 0nat,
{
    match node.listing {
        Err(_) => {
            lemma_shapes_of_nothing(state.emitted);
        },
        Ok(items) => {
            let n = items@.len() as int;
            let from = state.emitted.len() as int;
            lemma_list_items_shapes(items@, n, path, depth, rules, Tally::zero(), state);
            let (listed, mid) = list_items(items@, n, path, depth, rules, Tally::zero(), state);
            lemma_fan_out_shapes(items@, n, path, depth, rules, listed.total, mid);
            let (total, late) = fan_out(items@, n, path, depth, rules, listed.total, mid);
            lemma_shapes_in_two_parts(mid.emitted, late.emitted, from);
            lemma_footprint_by_class(items@, n, path, depth, rules);
            let tally = Tally { total, ..listed };
            lemma_shapes_of_push(
                late.emitted,
                from,
                Emission { entry: directory_entry(path, parent, depth, tally), device: Some(device) },
            );
        },
    }
}

proof fn lemma_fan_out_shapes(
    items: Seq<DirItem>,
    upto: int,
    dir: Seq<char>,
    depth: u16,
    rules: WalkRules,
    total: u64,
    state: WalkState,
)
    ensures
        ({
            let after = fan_out(items, upto, dir, depth, rules, total, state).1;
            &&& extends(state.emitted, after.emitted)
            &&& shapes(after.emitted, state.emitted.len() as int) == footprint_of_class(
                items,
                upto,
                dir,
                depth,
                rules,
                Verdict::Directory,
            )
        }),
    decreases items, 1nat, upto,
{
    if upto <= 0 || upto > items.len() {
        lemma_shapes_of_nothing(state.emitted);
    } else {
        lemma_fan_out_shapes(items, upto - 1, dir, depth, rules, total, state);
        let (before, mid) = fan_out(items, upto - 1, dir, depth, rules, total, state);
        let item = items[upto - 1];
        lemma_fan_item_shapes(item, dir, depth, rules, before, mid);
        let after = fan_item(item, dir, depth, rules, before, mid).1;
        lemma_shapes_in_two_parts(mid.emitted, after.emitted, state.emitted.len() as int);
        assert(shapes(after.emitted, state.emitted.len() as int) =~= footprint_of_class(
            items,
            upto,
            dir,
            depth,
            rules,
            Verdict::Directory,
        ));
    }
}

proof fn lemma_fan_item_shapes(
    item: DirItem,
    dir: Seq<char>,
    depth: u16,
    rules: WalkRules,
    total: u64,
    state: WalkState,
)
    ensures
        ({
            let after = fan_item(item, dir, depth, rules, total, state).1;
            &&& extends(state.emitted, after.emitted)
            &&& shapes(after.emitted, state.emitted.len() as int) == if class_of(item, rules)
                is Directory {
                footprint_of_item(item, dir, depth, rules)
            } else {
                Set::<Shape>::empty()
            }
        }),
    decreases item, 0nat, 0nat,
{
    match item {
        DirItem::Unreadable(_) => {
            lemma_shapes_of_nothing(state.emitted);
        },
        DirItem::Entry(child) => {
            if descends(item, depth, rules) {
                lemma_fan_directory_shapes(
                    child,
                    child_path(dir, child.name@, rules.host),
                    Some(dir),
                    (depth + 1) as u16,
                    child.meta->Ok_0.device,
                    rules,
                    state,
                );
            } else {
                lemma_shapes_of_nothing(state.emitted);
            }
        },
    }
}

/// The depth-first walk of a scan emits exactly the shapes of the tree
/// that the rules let through.
pub proof fn lemma_walk_gives_the_footprint(root: FsNode, rules: WalkRules, state: WalkState)
    ensures
        extends(state.emitted, walk_root(root, rules, state).1.emitted),
        shapes(walk_root(root, rules, state).1.emitted, state.emitted.len() as int)
            == footprint_of_root(root, rules),
{
    lemma_shapes_of_nothing(state.emitted);
    match root.meta {
        Err(_) => {},
        Ok(meta) => {
            if verdict(meta, rules) is Directory {
                lemma_walk_directory_shapes(
                    root,
                    normalized(root.name@, rules.host),
                    None,
                    0,
                    meta.device,
                    rules,
                    state,
                );
            }
        },
    }
}

/// The walk of a scan that fans out emits exactly the shapes of the tree
/// that the rules let through.
pub proof fn lemma_fan_walk_gives_the_footprint(root: FsNode, rules: WalkRules, state: WalkState)
    ensures
        extends(state.emitted, fan_root(root, rules, state).1.emitted),
        shapes(fan_root(root, rules, state).1.emitted, state.emitted.len() as int)
            == footprint_of_root(root, rules),
{
    lemma_shapes_of_nothing(state.emitted);
    match root.meta {
        Err(_) => {},
        Ok(meta) => {
            if verdict(meta, rules) is Directory {
                lemma_fan_directory_shapes(
                    root,
                    normalized(root.name@, rules.host),
                    None,
                    0,
                    meta.device,
                    rules,
                    state,
                );
            }
        },
    }
}

/// Every strategy gives the same paths with the same counts: for one tree
/// and one set of rules, the path, file count and directory count of the
/// entries emitted by the depth-first walk are those of the entries emitted
/// by the walk that fans out, whatever either scan had seen before.
pub proof fn lemma_strategies_agree_on_shapes(
    root: FsNode,
    rules: WalkRules,
    first: WalkState,
    second: WalkState,
)
    ensures
        shapes(walk_root(root, rules, first).1.emitted, first.emitted.len() as int) == shapes(
            fan_root(root, rules, second).1.emitted,
            second.emitted.len() as int,
        ),
{
    lemma_walk_gives_the_footprint(root, rules, first);
    lemma_fan_walk_gives_the_footprint(root, rules, second);
}

/// The counts that a depth-first walk keeps of the items of a directory are
/// those of the census.
pub proof fn lemma_walk_items_census(
    items: Seq<DirItem>,
    upto: int,
    dir: Seq<char>,
    depth: u16,
    rules: WalkRules,
    tally: Tally,
    state: WalkState,
)
    requires
        tally.files == 0,
        tally.dirs == 0,
    ensures
        ({
            let tally_after = walk_items(items, upto, dir, depth, rules, tally, state).0;
            (tally_after.files, tally_after.dirs) == census(items, upto, rules)
        }),
{
    lemma_walk_items_shapes(items, upto, dir, depth, rules, tally, state);
}

/// The counts that an enumeration keeps of the items of a directory are
/// those of the census.
pub proof fn lemma_list_items_census(
    items: Seq<DirItem>,
    upto: int,
    dir: Seq<char>,
    depth: u16,
    rules: WalkRules,
    tally: Tally,
    state: WalkState,
)
    requires
        tally.files == 0,
        tally.dirs == 0,
    ensures
        ({
            let tally_after = list_items(items, upto, dir, depth, rules, tally, state).0;
            (tally_after.files, tally_after.dirs) == census(items, upto, rules)
        }),
{
    lemma_list_items_shapes(items, upto, dir, depth, rules, tally, state);
}

} // verus!
