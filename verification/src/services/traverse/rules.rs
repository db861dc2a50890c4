//! The rules that every traversal strategy obeys, stated over plain values:
//! which entries count, what a file contributes, what is emitted, and what
//! a whole walk does to the state of a scan.

use vstd::prelude::*;

use super::detect::HostOs;
use super::legacy::FileId;
use super::tree::{DirItem, FileMeta, FsNode, IoErrorKind, IoFailure, NodeKind};
use crate::models::{DirectoryEntryView, ErrorItemView};
use crate::{HardlinkPolicy, SizeBasis};

verus! {

/// What is fixed while a walk runs.
pub struct WalkRules {
    pub basis: SizeBasis,
    pub hardlink_policy: HardlinkPolicy,
    pub follow_symlinks: bool,
    /// The greatest depth at which entries are emitted.
    pub max_depth: Option<u16>,
    /// The device that every counted entry must be on, where the scan may
    /// not cross filesystems and the root's device is known.
    pub boundary: Option<u64>,
    pub host: HostOs,
}

/// An emitted entry, with the device of the metadata it was made from
/// (unknown where a caller emitted the entry by hand).
pub struct Emission {
    pub entry: DirectoryEntryView,
    pub device: Option<u64>,
}

/// What a walk changes.
pub struct WalkState {
    /// The identities of the files counted so far under deduplication.
    pub seen: Set<FileId>,
    /// Everything emitted so far, in order.
    pub emitted: Seq<Emission>,
    /// Every failure recorded so far, in order.
    pub errors: Seq<ErrorItemView>,
    pub processed_entries: u64,
    pub processed_bytes: u64,
}

/// The counters of one directory while its items are gone through.
#[derive(Debug, Clone, Copy)]
pub struct Tally {
    pub total: u64,
    pub files: u32,
    pub dirs: u32,
}

/// `a + b`, stopping at `u64::MAX`.
pub open spec fn sat_add(a: u64, b: u64) -> u64 {
    if a + b > u64::MAX {
        u64::MAX
    } else {
        (a + b) as u64
    }
}

/// `n + 1`, stopping at `u32::MAX`.
pub open spec fn sat_inc(n: u32) -> u32 {
    if n == u32::MAX {
        n
    } else {
        (n + 1) as u32
    }
}

impl Tally {
    /// The tally of a directory before its first item.
    pub open spec fn zero() -> Tally {
        Tally { total: 0, files: 0, dirs: 0 }
    }

    /// The tally with one more file that contributes `size` bytes.
    pub open spec fn with_file(self, size: u64) -> Tally {
        Tally { total: sat_add(self.total, size), files: sat_inc(self.files), dirs: self.dirs }
    }

    /// The tally with one more subdirectory whose walk gave `size` bytes.
    pub open spec fn with_dir(self, size: u64) -> Tally {
        Tally { total: sat_add(self.total, size), files: self.files, dirs: sat_inc(self.dirs) }
    }

    /// The tally of a directory before its first item.
    pub fn new() -> (tally: Tally)
        ensures
            tally == Tally::zero(),
    {
        Tally { total: 0, files: 0, dirs: 0 }
    }

    /// Count a file that contributes `size` bytes.
    pub fn add_file(&mut self, size: u64)
        ensures
            *final(self) == old(self).with_file(size),
    {
        self.total = self.total.saturating_add(size);
        self.files = self.files.saturating_add(1);
    }

    /// Add the bytes of subdirectories that were counted before they were
    /// walked.
    pub fn add_bytes(&mut self, size: u64)
        ensures
            *final(self) == (Tally { total: sat_add(old(self).total, size), ..*old(self) }),
    {
        self.total = self.total.saturating_add(size);
    }

    /// Count a subdirectory whose walk gave `size` bytes.
    pub fn add_dir(&mut self, size: u64)
        ensures
            *final(self) == old(self).with_dir(size),
    {
        self.total = self.total.saturating_add(size);
        self.dirs = self.dirs.saturating_add(1);
    }
}

/// Whether `longer` begins with all of `shorter`.
pub open spec fn extends<T>(shorter: Seq<T>, longer: Seq<T>) -> bool {
    shorter.len() <= longer.len() && forall|i: int|
        0 <= i < shorter.len() ==> #[trigger] longer[i] == shorter[i]
}

/// The bytes of a file under a basis: its nominal length, or its on-disk
/// byte count, for which the nominal length stands in where the platform
/// could not tell.
pub open spec fn attributed_size(meta: FileMeta, basis: SizeBasis) -> u64 {
    match basis {
        SizeBasis::Logical => meta.logical_len,
        SizeBasis::Physical => match meta.physical_len {
            Some(n) => n,
            None => meta.logical_len,
        },
    }
}

/// Whether a file is counted, given the files seen before it. Without a
/// stable identity a file is always counted.
pub open spec fn counts(meta: FileMeta, rules: WalkRules, seen: Set<FileId>) -> bool {
    match rules.hardlink_policy {
        HardlinkPolicy::Count => true,
        HardlinkPolicy::Dedupe => match meta.file_id {
            Some(id) => !seen.contains(id),
            None => true,
        },
    }
}

/// The bytes that a file contributes, given the files seen before it.
pub open spec fn contribution(meta: FileMeta, rules: WalkRules, seen: Set<FileId>) -> u64 {
    if counts(meta, rules, seen) {
        attributed_size(meta, rules.basis)
    } else {
        0
    }
}

/// The files seen once `meta` has been looked at.
pub open spec fn seen_after(meta: FileMeta, rules: WalkRules, seen: Set<FileId>) -> Set<FileId> {
    match rules.hardlink_policy {
        HardlinkPolicy::Count => seen,
        HardlinkPolicy::Dedupe => match meta.file_id {
            Some(id) => seen.insert(id),
            None => seen,
        },
    }
}

/// The code under which a failure is recorded.
pub open spec fn error_code(kind: IoErrorKind) -> Seq<char> {
    match kind {
        IoErrorKind::NotFound => "ENOENT"@,
        IoErrorKind::PermissionDenied => "EACCES"@,
        IoErrorKind::Other => "IO"@,
    }
}

/// The record of a failure at `path`.
pub open spec fn error_item(path: Seq<char>, failure: IoFailure) -> ErrorItemView {
    ErrorItemView { path, code: error_code(failure.kind), message: failure.message@ }
}

/// A path as it is stored: on Windows every backslash becomes a slash;
/// elsewhere the path stays as it is, a backslash being part of a name.
pub open spec fn normalized(path: Seq<char>, host: HostOs) -> Seq<char> {
    if host == HostOs::Windows {
        path.map_values(
            |c: char|
                if c == '\\' {
                    '/'
                } else {
                    c
                },
        )
    } else {
        path
    }
}

/// A stored directory path made ready to take a name behind it.
pub open spec fn with_separator(dir: Seq<char>) -> Seq<char> {
    if dir.len() == 0 || dir.last() == '/' {
        dir
    } else {
        dir.push('/')
    }
}

/// The stored path of the entry `name` of the directory stored as `dir`.
pub open spec fn child_path(dir: Seq<char>, name: Seq<char>, host: HostOs) -> Seq<char> {
    with_separator(dir) + normalized(name, host)
}

/// The names under which a raw directory listing gives the directory
/// itself and its parent.
pub open spec fn is_pseudo_entry(name: Seq<char>) -> bool {
    name == "."@ || name == ".."@
}

/// What a directory does with one of its entries.
pub enum Verdict {
    /// The entry is passed over: it counts for nothing and nothing is
    /// emitted for it.
    Skip,
    /// The entry is a file of the directory.
    File,
    /// The entry is a subdirectory of the directory.
    Directory,
}

/// The verdict on an entry with metadata `meta`. A symbolic link is passed
/// over unless links are followed, and so is an entry on another device
/// than the boundary. Metadata is the link's own, so a followed link is
/// neither file nor directory.
pub open spec fn verdict(meta: FileMeta, rules: WalkRules) -> Verdict {
    if meta.kind == NodeKind::Symlink && !rules.follow_symlinks {
        Verdict::Skip
    } else if rules.boundary is Some && rules.boundary != Some(meta.device) {
        Verdict::Skip
    } else {
        match meta.kind {
            NodeKind::File => Verdict::File,
            NodeKind::Directory => Verdict::Directory,
            NodeKind::Symlink => Verdict::Skip,
            NodeKind::Other => Verdict::Skip,
        }
    }
}

/// Whether the entries of a directory at `depth` are within the depth
/// limit. Depths end at `u16::MAX`.
pub open spec fn children_within_limit(depth: u16, rules: WalkRules) -> bool {
    depth < u16::MAX && match rules.max_depth {
        Some(max) => depth < max,
        None => true,
    }
}

impl WalkState {
    /// The state with one more failure on record.
    pub open spec fn with_error(self, item: ErrorItemView) -> WalkState {
        WalkState { errors: self.errors.push(item), ..self }
    }

    /// The state with one more entry emitted.
    pub open spec fn with_emission(self, emission: Emission) -> WalkState {
        WalkState { emitted: self.emitted.push(emission), ..self }
    }

    /// One more entry processed, with its bytes.
    pub open spec fn advanced(self, bytes: u64) -> WalkState {
        WalkState {
            processed_entries: sat_add(self.processed_entries, 1),
            processed_bytes: sat_add(self.processed_bytes, bytes),
            ..self
        }
    }
}

/// The entry emitted for a file.
pub open spec fn file_entry(dir: Seq<char>, name: Seq<char>, depth: u16, size: u64, host: HostOs)
    -> DirectoryEntryView {
    DirectoryEntryView {
        path: child_path(dir, name, host),
        parent_path: Some(dir),
        depth: (depth + 1) as u16,
        size_bytes: size,
        file_count: 0,
        dir_count: 0,
    }
}

/// The entry emitted for a directory once its items are gone through.
pub open spec fn directory_entry(
    path: Seq<char>,
    parent: Option<Seq<char>>,
    depth: u16,
    tally: Tally,
) -> DirectoryEntryView {
    DirectoryEntryView {
        path,
        parent_path: parent,
        depth,
        size_bytes: tally.total,
        file_count: tally.files,
        dir_count: tally.dirs,
    }
}

/// The state after a directory at `depth`, stored as `dir`, has dealt with
/// its file `name`: the file is counted by the hardlink policy, progress
/// advances, and the file's entry is emitted where the depth limit allows.
pub open spec fn after_file(
    dir: Seq<char>,
    name: Seq<char>,
    meta: FileMeta,
    depth: u16,
    rules: WalkRules,
    state: WalkState,
) -> WalkState {
    let size = contribution(meta, rules, state.seen);
    let counted = WalkState { seen: seen_after(meta, rules, state.seen), ..state }.advanced(size);
    if children_within_limit(depth, rules) {
        counted.with_emission(
            Emission {
                entry: file_entry(dir, name, depth, size, rules.host),
                device: Some(meta.device),
            },
        )
    } else {
        counted
    }
}

/// The state after a directory has been finalized: its entry is emitted
/// and progress advances by one entry.
pub open spec fn after_directory(
    path: Seq<char>,
    parent: Option<Seq<char>>,
    depth: u16,
    device: u64,
    tally: Tally,
    state: WalkState,
) -> WalkState {
    state.with_emission(
        Emission { entry: directory_entry(path, parent, depth, tally), device: Some(device) },
    ).advanced(0)
}

/// The depth-first walk of a directory: its total and the state after it.
/// A directory that cannot be listed is recorded as a failure and leaves
/// no entry.
pub open spec fn walk_directory(
    node: FsNode,
    path: Seq<char>,
    parent: Option<Seq<char>>,
    depth: u16,
    device: u64,
    rules: WalkRules,
    state: WalkState,
) -> (u64, WalkState)
    decreases node, 0nat, 0nat,
{
    match node.listing {
        Err(failure) => (0, state.with_error(error_item(path, failure))),
        Ok(items) => {
            let (tally, after) = walk_items(
                items@,
                items@.len() as int,
                path,
                depth,
                rules,
                Tally::zero(),
                state,
            );
            (tally.total, after_directory(path, parent, depth, device, tally, after))
        },
    }
}

/// The walk through the first `upto` items of a directory, in order.
pub open spec fn walk_items(
    items: Seq<DirItem>,
    upto: int,
    dir: Seq<char>,
    depth: u16,
    rules: WalkRules,
    tally: Tally,
    state: WalkState,
) -> (Tally, WalkState)
    decreases items, 1nat, upto,
{
    if upto <= 0 || upto > items.len() {
        (tally, state)
    } else {
        let (before, mid) = walk_items(items, upto - 1, dir, depth, rules, tally, state);
        walk_item(items[upto - 1], dir, depth, rules, before, mid)
    }
}

/// What one item of a directory does to the directory's tally and to the
/// state: a failure is recorded, a file is counted, a subdirectory within
/// the depth limit is walked, one beyond it is counted and left alone.
pub open spec fn walk_item(
    item: DirItem,
    dir: Seq<char>,
    depth: u16,
    rules: WalkRules,
    tally: Tally,
    state: WalkState,
) -> (Tally, WalkState)
    decreases item, 0nat, 0nat,
{
    match item {
        DirItem::Unreadable(failure) => (tally, state.with_error(error_item(dir, failure))),
        DirItem::Entry(child) => if is_pseudo_entry(child.name@) {
            (tally, state)
        } else {
            match child.meta {
                Err(failure) => (
                    tally,
                    state.with_error(
                        error_item(child_path(dir, child.name@, rules.host), failure),
                    ),
                ),
                Ok(meta) => match verdict(meta, rules) {
                    Verdict::Skip => (tally, state),
                    Verdict::File => (
                        tally.with_file(contribution(meta, rules, state.seen)),
                        after_file(dir, child.name@, meta, depth, rules, state),
                    ),
                    Verdict::Directory => if children_within_limit(depth, rules) {
                        let (sub, after) = walk_directory(
                            child,
                            child_path(dir, child.name@, rules.host),
                            Some(dir),
                            (depth + 1) as u16,
                            meta.device,
                            rules,
                            state,
                        );
                        (tally.with_dir(sub), after)
                    } else {
                        (tally.with_dir(0), state)
                    },
                },
            }
        },
    }
}

/// The state after a file has been counted without being emitted: the
/// case of a scan whose root is a file.
pub open spec fn after_lone_file(meta: FileMeta, rules: WalkRules, state: WalkState) -> WalkState {
    WalkState { seen: seen_after(meta, rules, state.seen), ..state }
}

/// The depth-first walk of a whole scan from its root. A root whose
/// metadata cannot be read is recorded as a failure and gives zero. A root
/// that is a file gives what the file contributes and emits nothing.
pub open spec fn walk_root(root: FsNode, rules: WalkRules, state: WalkState) -> (u64, WalkState) {
    let path = normalized(root.name@, rules.host);
    match root.meta {
        Err(failure) => (0, state.with_error(error_item(path, failure))),
        Ok(meta) => match verdict(meta, rules) {
            Verdict::Skip => (0, state),
            Verdict::File => (
                contribution(meta, rules, state.seen),
                after_lone_file(meta, rules, state),
            ),
            Verdict::Directory => walk_directory(root, path, None, 0, meta.device, rules, state),
        },
    }
}

/// What one item does while its directory is enumerated by a strategy
/// that fans out: as in the depth-first walk, but a subdirectory is only
/// counted, its walk being left for later.
pub open spec fn list_item(
    item: DirItem,
    dir: Seq<char>,
    depth: u16,
    rules: WalkRules,
    tally: Tally,
    state: WalkState,
) -> (Tally, WalkState) {
    match item {
        DirItem::Unreadable(failure) => (tally, state.with_error(error_item(dir, failure))),
        DirItem::Entry(child) => if is_pseudo_entry(child.name@) {
            (tally, state)
        } else {
            match child.meta {
                Err(failure) => (
                    tally,
                    state.with_error(
                        error_item(child_path(dir, child.name@, rules.host), failure),
                    ),
                ),
                Ok(meta) => match verdict(meta, rules) {
                    Verdict::Skip => (tally, state),
                    Verdict::File => (
                        tally.with_file(contribution(meta, rules, state.seen)),
                        after_file(dir, child.name@, meta, depth, rules, state),
                    ),
                    Verdict::Directory => (tally.with_dir(0), state),
                },
            }
        },
    }
}

/// The enumeration of the first `upto` items of a directory, in order.
pub open spec fn list_items(
    items: Seq<DirItem>,
    upto: int,
    dir: Seq<char>,
    depth: u16,
    rules: WalkRules,
    tally: Tally,
    state: WalkState,
) -> (Tally, WalkState)
    decreases upto,
{
    if upto <= 0 || upto > items.len() {
        (tally, state)
    } else {
        let (before, mid) = list_items(items, upto - 1, dir, depth, rules, tally, state);
        list_item(items[upto - 1], dir, depth, rules, before, mid)
    }
}

/// Whether an item of a directory at `depth` is a subdirectory that is
/// walked.
pub open spec fn descends(item: DirItem, depth: u16, rules: WalkRules) -> bool {
    &&& item matches DirItem::Entry(child)
    &&& !is_pseudo_entry(child.name@)
    &&& child.meta matches Ok(meta)
    &&& verdict(meta, rules) is Directory
    &&& children_within_limit(depth, rules)
}

/// The walk of a directory by a strategy that fans out: first every item
/// is enumerated, then the subdirectories are walked, then the directory's
/// own entry is emitted.
pub open spec fn fan_directory(
    node: FsNode,
    path: Seq<char>,
    parent: Option<Seq<char>>,
    depth: u16,
    device: u64,
    rules: WalkRules,
    state: WalkState,
) -> (u64, WalkState)
    decreases node, 0nat, 0nat,
{
    match node.listing {
        Err(failure) => (0, state.with_error(error_item(path, failure))),
        Ok(items) => {
            let (listed, mid) = list_items(
                items@,
                items@.len() as int,
                path,
                depth,
                rules,
                Tally::zero(),
                state,
            );
            let (total, after) = fan_out(
                items@,
                items@.len() as int,
                path,
                depth,
                rules,
                listed.total,
                mid,
            );
            let tally = Tally { total, ..listed };
            (total, after_directory(path, parent, depth, device, tally, after))
        },
    }
}

/// The walks of the subdirectories among the first `upto` items, in order,
/// each adding its total to `total`.
pub open spec fn fan_out(
    items: Seq<DirItem>,
    upto: int,
    dir: Seq<char>,
    depth: u16,
    rules: WalkRules,
    total: u64,
    state: WalkState,
) -> (u64, WalkState)
    decreases items, 1nat, upto,
{
    if upto <= 0 || upto > items.len() {
        (total, state)
    } else {
        let (before, mid) = fan_out(items, upto - 1, dir, depth, rules, total, state);
        fan_item(items[upto - 1], dir, depth, rules, before, mid)
    }
}

/// The second pass over one item: a subdirectory that is walked adds its
/// total; every other item adds nothing.
pub open spec fn fan_item(
    item: DirItem,
    dir: Seq<char>,
    depth: u16,
    rules: WalkRules,
    total: u64,
    state: WalkState,
) -> (u64, WalkState)
    decreases item, 0nat, 0nat,
{
    match item {
        DirItem::Entry(child) => if descends(item, depth, rules) {
            let (sub, after) = fan_directory(
                child,
                child_path(dir, child.name@, rules.host),
                Some(dir),
                (depth + 1) as u16,
                child.meta->Ok_0.device,
                rules,
                state,
            );
            (sat_add(total, sub), after)
        } else {
            (total, state)
        },
        DirItem::Unreadable(_) => (total, state),
    }
}

/// The walk of a whole scan from its root by a strategy that fans out.
pub open spec fn fan_root(root: FsNode, rules: WalkRules, state: WalkState) -> (u64, WalkState) {
    let path = normalized(root.name@, rules.host);
    match root.meta {
        Err(failure) => (0, state.with_error(error_item(path, failure))),
        Ok(meta) => match verdict(meta, rules) {
            Verdict::Skip => (0, state),
            Verdict::File => (
                contribution(meta, rules, state.seen),
                after_lone_file(meta, rules, state),
            ),
            Verdict::Directory => fan_directory(root, path, None, 0, meta.device, rules, state),
        },
    }
}

} // verus!
