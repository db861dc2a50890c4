//! What the two commands decide: the options of a scan, the selection of a
//! view, and the exit code of the program.

use vstd::prelude::*;

use super::args::{ScanArgs, ScanArgsView, ViewArgs};
use crate::models::{DirectoryEntry, SnapshotMeta};
use crate::services::aggregate::{
    children_among, get_immediate_children, limited, ranked_by, sort_and_limit, SortBy,
};
use crate::services::traverse::{strategy_of_label, unknown_strategy_message, StrategyKind};
use crate::text::{joined3, str_eq};
use crate::{default_scan_options, Error, ScanOptions, SizeBasis};

verus! {

/// Exit code of a run that succeeded.
pub const EXIT_SUCCESS: i32 = 0;

/// Exit code for an invalid argument or a path that leads nowhere.
pub const EXIT_INVALID_INPUT: i32 = 2;

/// Exit code of a scan that completed with failures.
pub const EXIT_PARTIAL_FAILURE: i32 = 3;

/// Exit code for an I/O failure, a failure to write the snapshot, and
/// every failure that is not classified.
pub const EXIT_FAILURE: i32 = 4;

/// Nanoseconds in a second.
pub const NANOS_PER_SEC: u64 = 1_000_000_000;

/// The size basis that a label names.
pub open spec fn basis_of_label(label: Seq<char>) -> Option<SizeBasis> {
    if label == "physical"@ {
        Some(SizeBasis::Physical)
    } else if label == "logical"@ {
        Some(SizeBasis::Logical)
    } else {
        None
    }
}

/// The sort field that a label names.
pub open spec fn sort_of_label(label: Seq<char>) -> Option<SortBy> {
    if label == "size"@ {
        Some(SortBy::Size)
    } else if label == "files"@ {
        Some(SortBy::Files)
    } else if label == "dirs"@ {
        Some(SortBy::Dirs)
    } else {
        None
    }
}

/// Read a size basis.
pub fn parse_basis(label: &str) -> (basis: Option<SizeBasis>)
    ensures
        basis == basis_of_label(label@),
{
    if str_eq(label, "physical") {
        Some(SizeBasis::Physical)
    } else if str_eq(label, "logical") {
        Some(SizeBasis::Logical)
    } else {
        None
    }
}

/// Read a sort field.
pub fn parse_sort(label: &str) -> (sort_by: Option<SortBy>)
    ensures
        sort_by == sort_of_label(label@),
{
    if str_eq(label, "size") {
        Some(SortBy::Size)
    } else if str_eq(label, "files") {
        Some(SortBy::Files)
    } else if str_eq(label, "dirs") {
        Some(SortBy::Dirs)
    } else {
        None
    }
}

/// Seconds in nanoseconds, stopping at `u64::MAX`.
pub open spec fn nanos_of_secs(secs: u64) -> u64 {
    if secs * NANOS_PER_SEC > u64::MAX {
        u64::MAX
    } else {
        (secs * NANOS_PER_SEC) as u64
    }
}

/// Seconds in nanoseconds, stopping at `u64::MAX`.
pub fn secs_to_nanos(secs: u64) -> (ns: u64)
    ensures
        ns == nanos_of_secs(secs),
{
    if secs > u64::MAX / NANOS_PER_SEC {
        u64::MAX
    } else {
        secs * NANOS_PER_SEC
    }
}

/// The options that the arguments of a scan ask for, or the message of
/// what is wrong with them. A strategy named explicitly goes before the
/// flag for the legacy strategy. An interval given in seconds turns the
/// byte trigger off.
pub open spec fn options_of(args: ScanArgsView) -> Result<ScanOptions, Seq<char>> {
    match basis_of_label(args.basis) {
        None => Err("Invalid basis: "@ + args.basis + ". Use 'physical' or 'logical'"@),
        Some(basis) => {
            let with_basis = ScanOptions {
                basis,
                max_depth: args.max_depth,
                ..default_scan_options()
            };
            let timed = match args.progress_interval_secs {
                Some(secs) => ScanOptions {
                    progress_interval_ns: nanos_of_secs(secs),
                    progress_byte_trigger: u64::MAX,
                    ..with_basis
                },
                None => with_basis,
            };
            match args.strategy_override {
                Some(label) => match strategy_of_label(label) {
                    Some(kind) => Ok(ScanOptions { strategy_override: Some(kind), ..timed }),
                    None => Err("unknown strategy '"@ + label + "'"@),
                },
                None => if args.legacy_traversal {
                    Ok(ScanOptions { strategy_override: Some(StrategyKind::Legacy), ..timed })
                } else {
                    Ok(timed)
                },
            }
        },
    }
}

/// Derive the options of a scan from its arguments.
pub fn scan_options(args: &ScanArgs) -> (r: Result<ScanOptions, String>)
    ensures
        match r {
            Ok(opts) => options_of(args@) == Ok::<ScanOptions, Seq<char>>(opts),
            Err(message) => options_of(args@) == Err::<ScanOptions, Seq<char>>(message@),
        },
{
    let basis = match parse_basis(args.basis.as_str()) {
        Some(basis) => basis,
        None => {
            return Err(
                joined3("Invalid basis: ", args.basis.as_str(), ". Use 'physical' or 'logical'"),
            );
        },
    };
    let mut opts = ScanOptions::default();
    opts.basis = basis;
    opts.max_depth = args.max_depth;

    match &args.strategy_override {
        Some(label) => {
            match StrategyKind::from_label(label.as_str()) {
                Some(kind) => {
                    opts.strategy_override = Some(kind);
                },
                None => {
                    return Err(unknown_strategy_message(label.as_str()));
                },
            }
        },
        None => {
            if args.legacy_traversal {
                opts.strategy_override = Some(StrategyKind::Legacy);
            }
        },
    }

    if let Some(interval_secs) = args.progress_interval_secs {
        opts.progress_interval_ns = secs_to_nanos(interval_secs);
        opts.progress_byte_trigger = u64::MAX;
    }
    Ok(opts)
}

/// The exit code for an error of the library.
pub open spec fn exit_code_of(error: Error) -> i32 {
    match error {
        Error::InvalidInput(_) => EXIT_INVALID_INPUT,
        Error::PartialFailure { .. } => EXIT_PARTIAL_FAILURE,
        _ => EXIT_FAILURE,
    }
}

/// The exit code for an error of the library.
pub fn error_exit_code(error: &Error) -> (code: i32)
    ensures
        code == exit_code_of(*error),
{
    match error {
        Error::InvalidInput(_) => EXIT_INVALID_INPUT,
        Error::PartialFailure { .. } => EXIT_PARTIAL_FAILURE,
        _ => EXIT_FAILURE,
    }
}

/// The exit code of a scan that completed with `error_count` failures on
/// record.
pub fn scan_exit_code(error_count: usize) -> (code: i32)
    ensures
        code == if error_count == 0 {
            EXIT_SUCCESS
        } else {
            EXIT_PARTIAL_FAILURE
        },
{
    if error_count == 0 {
        EXIT_SUCCESS
    } else {
        EXIT_PARTIAL_FAILURE
    }
}

/// What a view shows.
#[derive(Debug)]
pub struct ViewSelection {
    /// The directory whose children are shown.
    pub root: String,
    /// The strategy that made the snapshot.
    pub strategy: StrategyKind,
    /// The children shown, ranked and limited.
    pub entries: Vec<DirectoryEntry>,
}

/// Why a view cannot be shown.
#[derive(Debug)]
pub enum ViewFault {
    /// The sort field is none of size, files and dirs.
    InvalidSort(String),
    /// The path asked for is not in the snapshot.
    PathNotFound(String),
}

impl ViewFault {
    /// The fault as a line of text.
    pub fn message(&self) -> (text: String)
        ensures
            text@ == match self {
                ViewFault::InvalidSort(sort) => "Invalid sort: "@ + sort@ + ". Use 'size'"@,
                ViewFault::PathNotFound(path) => "Path '"@ + path@ + "' not found in snapshot"@,
            },
    {
        match self {
            ViewFault::InvalidSort(sort) => joined3("Invalid sort: ", sort.as_str(), ". Use 'size'"),
            ViewFault::PathNotFound(path) => joined3(
                "Path '",
                path.as_str(),
                "' not found in snapshot",
            ),
        }
    }
}

/// The position of the first entry stored under `path` among the first
/// `upto` entries.
pub open spec fn first_at_path(all: Seq<DirectoryEntry>, path: Seq<char>, upto: int) -> Option<int>
    decreases upto,
{
    if upto <= 0 || upto > all.len() {
        None
    } else {
        match first_at_path(all, path, upto - 1) {
            Some(i) => Some(i),
            None => if all[upto - 1].path@ == path {
                Some(upto - 1)
            } else {
                None
            },
        }
    }
}

/// Find the first entry stored under `path`.
pub fn find_entry(all_entries: &[DirectoryEntry], path: &str) -> (found: Option<usize>)
    ensures
        match found {
            Some(i) => first_at_path(all_entries@, path@, all_entries@.len() as int) == Some(
                i as int,
            ) && i < all_entries@.len(),
            None => first_at_path(all_entries@, path@, all_entries@.len() as int) is None,
        },
{
    let mut i: usize = 0;
    while i < all_entries.len()
        invariant
            i <= all_entries.len(),
            first_at_path(all_entries@, path@, i as int) is None,
        decreases all_entries.len() - i,
    {
        if str_eq(all_entries[i].path.as_str(), path) {
            proof {
                lemma_first_found_stays(all_entries@, path@, i + 1, all_entries@.len() as int);
            }
            return Some(i);
        }
        i += 1;
    }
    None
}

proof fn lemma_first_found_stays(all: Seq<DirectoryEntry>, path: Seq<char>, at: int, upto: int)
    requires
        0 <= at <= upto <= all.len(),
        first_at_path(all, path, at) is Some,
    ensures
        first_at_path(all, path, upto) == first_at_path(all, path, at),
    decreases upto - at,
{
    if at < upto {
        lemma_first_found_stays(all, path, at, upto - 1);
    }
}

/// Select what a view shows: the immediate children of the directory asked
/// for (of the scan root where none is asked for), ranked by the sort
/// field and limited to the top entries. A snapshot whose strategy label
/// names no strategy is taken for one of the legacy strategy.
pub fn select_view(meta: &SnapshotMeta, all_entries: &[DirectoryEntry], args: &ViewArgs) -> (r:
    Result<ViewSelection, ViewFault>)
    ensures
        sort_of_label(args.sort@) is None ==> (r matches Err(ViewFault::InvalidSort(s)) && s@
            == args.sort@),
        sort_of_label(args.sort@) matches Some(sort_by) ==> match args.path {
            Some(path) => match first_at_path(all_entries@, path@, all_entries@.len() as int) {
                None => (r matches Err(ViewFault::PathNotFound(p)) && p@ == path@),
                Some(i) => (r matches Ok(view) && view.root@ == path@ && shows(
                    view,
                    *meta,
                    all_entries@,
                    path@,
                    all_entries@[i].depth,
                    sort_by,
                    args.top,
                )),
            },
            None => (r matches Ok(view) && view.root@ == meta.scan_root@ && shows(
                view,
                *meta,
                all_entries@,
                meta.scan_root@,
                0,
                sort_by,
                args.top,
            )),
        },
{
    let sort_by = match parse_sort(args.sort.as_str()) {
        Some(sort_by) => sort_by,
        None => {
            return Err(ViewFault::InvalidSort(args.sort.clone()));
        },
    };
    let (display_root, parent_depth) = match &args.path {
        Some(drill_path) => {
            match find_entry(all_entries, drill_path.as_str()) {
                Some(i) => (drill_path.clone(), all_entries[i].depth),
                None => {
                    return Err(ViewFault::PathNotFound(drill_path.clone()));
                },
            }
        },
        None => (meta.scan_root.clone(), 0),
    };
    let strategy = match StrategyKind::from_label(meta.strategy.as_str()) {
        Some(kind) => kind,
        None => StrategyKind::Legacy,
    };
    let children = get_immediate_children(all_entries, display_root.as_str(), parent_depth);
    let entries = sort_and_limit(children, sort_by, Some(args.top));
    Ok(ViewSelection { root: display_root, strategy, entries })
}

/// Whether a selection shows the children of the directory stored as
/// `root` at `depth`, ranked by `sort_by` and limited to `top`.
pub open spec fn shows(
    view: ViewSelection,
    meta: SnapshotMeta,
    all: Seq<DirectoryEntry>,
    root: Seq<char>,
    depth: u16,
    sort_by: SortBy,
    top: usize,
) -> bool {
    let children = children_among(all, all.len() as int, root, depth);
    &&& view.entries@ == ranked_by(children, sort_by).take(limited(children.len(), Some(top)))
    &&& view.strategy == match strategy_of_label(meta.strategy@) {
        Some(kind) => kind,
        None => StrategyKind::Legacy,
    }
}

} // verus!
