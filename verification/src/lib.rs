//! Disk usage analysis: the scanning core.
//!
//! A scan walks a directory tree, attributes logical or physical bytes to
//! every file and folder, and hands the resulting records to a sink. A view
//! reads the records back and ranks them. Everything in this crate works on
//! plain values; reading directories and snapshot files is left to the
//! caller.

use std::time::SystemTime;
use vstd::prelude::*;
use vstd::string::*;

pub mod cli;
pub mod io;
pub mod models;
pub mod services;
pub mod system;
pub mod text;

pub use models::{DirectoryEntry, ErrorItem, ProgressSnapshot, SnapshotMeta};
pub use services::traverse::progress::ProgressThrottler;
pub use services::traverse::strategy::{StrategyRegistry, TraversalStrategy};
pub use services::traverse::{StrategyKind, TraversalContext, TraversalDispatcher};

use crate::services::sink::memory::{latest_by_path, lists_in_path_order, MemorySink};
use crate::services::sink::{counted, ScanSink};
use crate::services::traverse::legacy::{
    configured_gap_ms, none_complete, progress_ordered, spaced, strictly_advancing,
};
use crate::services::traverse::progress::{DEFAULT_BYTE_TRIGGER, DEFAULT_INTERVAL_NS};
use crate::services::traverse::rules::{fan_root, walk_root, Emission, WalkRules, WalkState};
use crate::services::traverse::tree::{NodeKind, ScanTarget};
use crate::services::traverse::{name_view, resolved_strategy};
use crate::system::{describe_io_error, describe_time};
use crate::text::{joined, decimal, has_prefix, push_decimal};

verus! {

/// The policy used to attribute bytes to a file.
#[derive(Debug, Clone, Copy, PartialEq, Eq, Structural)]
pub enum SizeBasis {
    /// On-disk byte count.
    Physical,
    /// Nominal length.
    Logical,
}

/// How several names of one file are accounted for.
#[derive(Debug, Clone, Copy, PartialEq, Eq, Structural)]
pub enum HardlinkPolicy {
    /// A file contributes its bytes once per scan.
    Dedupe,
    /// Every name contributes independently.
    Count,
}

/// Options for scanning a directory.
#[derive(Debug, Clone, Copy)]
pub struct ScanOptions {
    pub basis: SizeBasis,
    pub max_depth: Option<u16>,
    pub hardlink_policy: HardlinkPolicy,
    pub follow_symlinks: bool,
    pub cross_filesystem: bool,
    pub strategy_override: Option<StrategyKind>,
    /// Minimum time between progress snapshots, in nanoseconds.
    pub progress_interval_ns: u64,
    /// Byte delta that forces a progress snapshot; `u64::MAX` disables it.
    pub progress_byte_trigger: u64,
}

impl Default for ScanOptions {
    fn default() -> (opts: Self)
        ensures
            opts == default_scan_options(),
    {
        Self {
            basis: SizeBasis::Physical,
            max_depth: None,
            hardlink_policy: HardlinkPolicy::Dedupe,
            follow_symlinks: false,
            cross_filesystem: false,
            strategy_override: None,
            progress_interval_ns: DEFAULT_INTERVAL_NS,
            progress_byte_trigger: DEFAULT_BYTE_TRIGGER,
        }
    }
}

/// The options of a scan for which nothing was asked: physical sizes, no
/// depth limit, hardlinks counted once, links not followed, one
/// filesystem, progress every two seconds or every million bytes.
pub open spec fn default_scan_options() -> ScanOptions {
    ScanOptions {
        basis: SizeBasis::Physical,
        max_depth: None,
        hardlink_policy: HardlinkPolicy::Dedupe,
        follow_symlinks: false,
        cross_filesystem: false,
        strategy_override: None,
        progress_interval_ns: DEFAULT_INTERVAL_NS,
        progress_byte_trigger: DEFAULT_BYTE_TRIGGER,
    }
}

/// Custom error type for the library.
#[derive(Debug)]
pub enum Error {
    /// Terminal failure writing the snapshot or reading it back.
    Io(std::io::Error),
    /// Root path missing or not a directory; malformed flag value.
    InvalidInput(String),
    /// The scan completed with failures.
    PartialFailure { completed: usize, failed: usize },
    /// Catch-all for unclassified failures.
    System(String),
}

impl Error {
    /// The error as a line of text.
    pub fn to_string(&self) -> (text: String)
        ensures
            match self {
                Error::Io(_) => has_prefix(text@, "I/O error: "@),
                Error::InvalidInput(msg) => text@ == "Invalid input: "@ + msg@,
                Error::PartialFailure { completed, failed } => text@ == "Partial failure: "@
                    + decimal(*completed as nat) + " completed, "@ + decimal(*failed as nat)
                    + " failed"@,
                Error::System(msg) => text@ == "System error: "@ + msg@,
            },
    {
        match self {
            Error::Io(e) => {
                let detail = describe_io_error(e);
                let text = joined("I/O error: ", detail.as_str());
                assert(text@.take("I/O error: "@.len() as int) =~= "I/O error: "@);
                text
            },
            Error::InvalidInput(msg) => joined("Invalid input: ", msg.as_str()),
            Error::PartialFailure { completed, failed } => {
                let mut text = "Partial failure: ".to_owned();
                push_decimal(*completed as u64, &mut text);
                text.append(" completed, ");
                push_decimal(*failed as u64, &mut text);
                text.append(" failed");
                text
            },
            Error::System(msg) => joined("System error: ", msg.as_str()),
        }
    }
}

impl From<std::io::Error> for Error {
    fn from(err: std::io::Error) -> (e: Self) {
        Error::Io(err)
    }
}

impl vstd::std_specs::convert::FromSpecImpl<std::io::Error> for Error {
    open spec fn obeys_from_spec() -> bool {
        true
    }

    open spec fn from_spec(err: std::io::Error) -> Error {
        Error::Io(err)
    }
}

/// Summary result from a scan operation.
#[derive(Debug)]
pub struct Summary {
    pub root: String,
    pub entries: Vec<DirectoryEntry>,
    pub errors: Vec<ErrorItem>,
    pub started_at: SystemTime,
    pub finished_at: SystemTime,
    pub strategy: StrategyKind,
    pub progress: Vec<ProgressSnapshot>,
    pub entry_count: u64,
}

/// The rules of a scan of `target` under `opts`: the boundary is the
/// device of the root, unless the scan may cross filesystems or the root
/// cannot be inspected.
pub open spec fn scan_rules(target: ScanTarget, opts: ScanOptions) -> WalkRules {
    WalkRules {
        basis: opts.basis,
        hardlink_policy: opts.hardlink_policy,
        follow_symlinks: opts.follow_symlinks,
        max_depth: opts.max_depth,
        boundary: if opts.cross_filesystem {
            None
        } else {
            match target.root.meta {
                Ok(meta) => Some(meta.device),
                Err(_) => None,
            }
        },
        host: target.host,
    }
}

/// The strategy that a scan of `target` under `opts` runs.
pub open spec fn scan_strategy(target: ScanTarget, opts: ScanOptions) -> StrategyKind {
    resolved_strategy(
        match opts.strategy_override {
            Some(kind) => kind,
            None => StrategyKind::Legacy,
        },
        opts.strategy_override is Some,
        target.host,
        name_view(target.fs_type_name),
    )
}

/// The state of a scan before its first entry.
pub open spec fn fresh_state() -> WalkState {
    WalkState {
        seen: Set::empty(),
        emitted: Seq::empty(),
        errors: Seq::empty(),
        processed_entries: 0,
        processed_bytes: 0,
    }
}

/// What a scan of `target` under `opts` gives: the total of the root and
/// everything emitted and recorded.
pub open spec fn scan_walk(target: ScanTarget, opts: ScanOptions) -> (u64, WalkState) {
    match scan_strategy(target, opts) {
        StrategyKind::Legacy => walk_root(target.root, scan_rules(target, opts), fresh_state()),
        _ => fan_root(target.root, scan_rules(target, opts), fresh_state()),
    }
}

/// Why a path cannot be scanned, if it cannot: it leads nowhere, or to
/// something that is no directory.
pub open spec fn path_fault(root: Seq<char>, resolved_kind: Option<NodeKind>) -> Option<Seq<char>> {
    match resolved_kind {
        None => Some("Path does not exist: "@ + root),
        Some(kind) => if kind == NodeKind::Directory {
            None
        } else {
            Some("Path is not a directory: "@ + root)
        },
    }
}

/// Why a root cannot be scanned, if it cannot.
pub open spec fn root_fault(target: ScanTarget) -> Option<Seq<char>> {
    path_fault(target.root.name@, target.resolved_kind)
}

/// The trace of a finished scan: every snapshot but the last leaves
/// completion open, the last marks it and holds the final counters; no
/// snapshot goes back; the snapshots before the last advance in entries,
/// and each of them comes at least `gap_ms` milliseconds after the one
/// before it.
pub open spec fn finished_trace(
    progress: Seq<ProgressSnapshot>,
    processed_entries: u64,
    processed_bytes: u64,
    gap_ms: u64,
) -> bool {
    &&& progress.len() > 0
    &&& progress.last().estimated_completion_percent == Some(100u8)
    &&& progress.last().processed_entries == processed_entries
    &&& progress.last().processed_bytes == processed_bytes
    &&& none_complete(progress.drop_last())
    &&& progress_ordered(progress, processed_entries, processed_bytes)
    &&& strictly_advancing(progress)
    &&& spaced(progress.drop_last(), gap_ms)
}

/// Check that a root can be scanned: it has to lead to a directory.
pub fn check_root(root: &str, resolved_kind: Option<NodeKind>) -> (r: Result<(), Error>)
    ensures
        match r {
            Ok(()) => path_fault(root@, resolved_kind) is None,
            Err(e) => e matches Error::InvalidInput(msg) && path_fault(root@, resolved_kind)
                == Some(msg@),
        },
{
    match resolved_kind {
        None => Err(Error::InvalidInput(joined("Path does not exist: ", root))),
        Some(kind) => {
            if kind == NodeKind::Directory {
                Ok(())
            } else {
                Err(Error::InvalidInput(joined("Path is not a directory: ", root)))
            }
        },
    }
}

/// Scan a directory tree and return a summary: the entries in the order
/// of their paths, the errors in the order in which they were met, the
/// strategy that ran and the progress trace.
pub fn scan_summary(target: &ScanTarget, opts: &ScanOptions) -> (r: Result<Summary, Error>)
    ensures
        root_fault(*target) matches Some(msg) ==> (r matches Err(Error::InvalidInput(text))
            && text@ == msg),
        root_fault(*target) is None ==> r is Ok,
        r matches Ok(summary) ==> {
            let state = scan_walk(*target, *opts).1;
            &&& summary.root@ == target.root.name@
            &&& summary.strategy == scan_strategy(*target, *opts)
            &&& lists_in_path_order(
                summary.entries.deep_view(),
                latest_by_path(state.emitted.map_values(|m: Emission| m.entry)),
            )
            &&& summary.errors.deep_view() == state.errors
            &&& summary.entry_count == counted(state.emitted.len())
            &&& finished_trace(
                summary.progress@,
                state.processed_entries,
                state.processed_bytes,
                configured_gap_ms(*opts),
            )
        },
{
    match check_root(target.root.name.as_str(), target.resolved_kind) {
        Ok(()) => {},
        Err(e) => {
            return Err(e);
        },
    }
    let root_path = target.root.name.clone();
    let started_at = SystemTime::now();

    let mut context = TraversalContext::new(*opts, opts.max_depth);
    let dispatcher = TraversalDispatcher::for_options(opts);

    match dispatcher.traverse(target, &mut context) {
        Ok(_) => {},
        Err(e) => {
            return Err(Error::Io(e));
        },
    }
    proof {
        assert(context.rules() == scan_rules(*target, *opts));
    }
    Ok(complete_summary(root_path, started_at, context))
}

/// Complete a scan that kept its output in memory: the terminal snapshot
/// is taken and the summary is drawn up, with the entries in the order of
/// their paths.
pub fn complete_summary(
    root: String,
    started_at: SystemTime,
    context: TraversalContext<MemorySink>,
) -> (summary: Summary)
    requires
        context.wf(),
        !context.finalized(),
    ensures
        summary.root == root,
        summary.strategy == context.strategy_view(),
        lists_in_path_order(
            summary.entries.deep_view(),
            latest_by_path(context.state().emitted.map_values(|m: Emission| m.entry)),
        ),
        summary.errors.deep_view() == context.state().errors,
        summary.entry_count == counted(context.state().emitted.len()),
        finished_trace(
            summary.progress@,
            context.state().processed_entries,
            context.state().processed_bytes,
            context.spacing(),
        ),
{
    let mut context = context;
    let ghost before = context.progress();
    proof {
        context.lemma_wf_facts();
    }
    context.finalize_progress();
    proof {
        context.lemma_wf_facts();
        assert(context.progress().drop_last() =~= before);
    }
    let (sink, progress, strategy) = context.into_sink();
    let finish = sink.finish_sorted();
    let finished_at = SystemTime::now();
    Summary {
        root,
        entries: finish.entries,
        errors: finish.errors,
        started_at,
        finished_at,
        strategy,
        progress,
        entry_count: finish.entry_count,
    }
}

/// The label of a size basis in the metadata of a snapshot.
pub open spec fn basis_label(basis: SizeBasis) -> Seq<char> {
    match basis {
        SizeBasis::Physical => "physical"@,
        SizeBasis::Logical => "logical"@,
    }
}

/// The label of a hardlink policy in the metadata of a snapshot.
pub open spec fn policy_label(policy: HardlinkPolicy) -> Seq<char> {
    match policy {
        HardlinkPolicy::Dedupe => "dedupe"@,
        HardlinkPolicy::Count => "count"@,
    }
}

impl SizeBasis {
    /// The label of the basis.
    pub fn as_str(&self) -> (label: &'static str)
        ensures
            label@ == basis_label(*self),
    {
        match self {
            SizeBasis::Physical => "physical",
            SizeBasis::Logical => "logical",
        }
    }
}

impl HardlinkPolicy {
    /// The label of the policy.
    pub fn as_str(&self) -> (label: &'static str)
        ensures
            label@ == policy_label(*self),
    {
        match self {
            HardlinkPolicy::Dedupe => "dedupe",
            HardlinkPolicy::Count => "count",
        }
    }
}

/// Scan a directory tree and stream the results into `sink`, which is
/// given the metadata of the snapshot before it is finished.
pub fn scan_to_snapshot<S: ScanSink>(target: &ScanTarget, opts: &ScanOptions, sink: S) -> (r:
    Result<Summary, Error>)
    requires
        sink.reliable() ==> sink.well_formed() && sink.received().len() == 0
            && sink.received_errors().len() == 0,
    ensures
        root_fault(*target) matches Some(msg) ==> (r matches Err(Error::InvalidInput(text))
            && text@ == msg),
        root_fault(*target) is None ==> (r matches Err(e) ==> e is Io),
        root_fault(*target) is None && sink.reliable() ==> r is Ok,
        r matches Ok(summary) ==> {
            let state = scan_walk(*target, *opts).1;
            &&& summary.root@ == target.root.name@
            &&& summary.strategy == scan_strategy(*target, *opts)
            &&& finished_trace(
                summary.progress@,
                state.processed_entries,
                state.processed_bytes,
                configured_gap_ms(*opts),
            )
            &&& sink.reliable() ==> summary.errors.deep_view() == state.errors
                && summary.entry_count == counted(state.emitted.len())
        },
{
    match check_root(target.root.name.as_str(), target.resolved_kind) {
        Ok(()) => {},
        Err(e) => {
            return Err(e);
        },
    }
    let root_path = target.root.name.clone();
    let started_at = SystemTime::now();

    let mut context = TraversalContext::with_sink(*opts, opts.max_depth, sink);
    let dispatcher = TraversalDispatcher::for_options(opts);

    match dispatcher.traverse(target, &mut context) {
        Ok(_) => {},
        Err(e) => {
            return Err(Error::Io(e));
        },
    }
    proof {
        assert(context.rules() == scan_rules(*target, *opts));
    }
    complete_snapshot(root_path, started_at, opts, context)
}

/// The metadata of the snapshot of a scan: its root, the readings of the
/// wall clock at its start and at its end written out, the labels of the
/// size basis and of the hardlink policy of its options, and the label of
/// the strategy that ran. No path is excluded.
pub fn snapshot_metadata(
    root: &str,
    started_at: &SystemTime,
    finished_at: &SystemTime,
    opts: &ScanOptions,
    strategy: StrategyKind,
) -> (meta: SnapshotMeta)
    ensures
        meta.scan_root@ == root@,
        meta.size_basis@ == basis_label(opts.basis),
        meta.hardlink_policy@ == policy_label(opts.hardlink_policy),
        meta.excludes@.len() == 0,
        meta.strategy@ == strategy.label(),
{
    SnapshotMeta {
        scan_root: root.to_owned(),
        started_at: describe_time(started_at),
        finished_at: describe_time(finished_at),
        size_basis: opts.basis.as_str().to_owned(),
        hardlink_policy: opts.hardlink_policy.as_str().to_owned(),
        excludes: Vec::new(),
        strategy: strategy.to_string(),
    }
}

/// Complete a scan that streamed its output into a sink: the terminal
/// snapshot is taken, the sink is given the metadata of the snapshot and
/// finished, and the summary is drawn up.
pub fn complete_snapshot<S: ScanSink>(
    root: String,
    started_at: SystemTime,
    opts: &ScanOptions,
    context: TraversalContext<S>,
) -> (r: Result<Summary, Error>)
    requires
        context.wf(),
        !context.finalized(),
    ensures
        r matches Err(e) ==> e is Io,
        context.sink_view().reliable() ==> r is Ok,
        r matches Ok(summary) ==> {
            &&& summary.root == root
            &&& summary.strategy == context.strategy_view()
            &&& finished_trace(
                summary.progress@,
                context.state().processed_entries,
                context.state().processed_bytes,
                context.spacing(),
            )
            &&& context.sink_view().reliable() ==> summary.errors.deep_view()
                == context.state().errors && summary.entry_count == counted(
                context.state().emitted.len(),
            )
        },
{
    let mut context = context;
    let ghost before = context.progress();
    proof {
        context.lemma_wf_facts();
    }
    context.finalize_progress();
    proof {
        context.lemma_wf_facts();
        assert(context.progress().drop_last() =~= before);
    }

    let finished_at = SystemTime::now();
    let strategy_active = context.strategy();

    let meta = snapshot_metadata(root.as_str(), &started_at, &finished_at, opts, strategy_active);

    match context.set_sink_metadata(&meta) {
        Ok(()) => {},
        Err(e) => {
            return Err(Error::Io(e));
        },
    }
    match context.into_parts() {
        Ok((finish, progress, strategy)) => Ok(
            Summary {
                root,
                entries: finish.entries,
                errors: finish.errors,
                started_at,
                finished_at,
                strategy,
                progress,
                entry_count: finish.entry_count,
            },
        ),
        Err(e) => Err(Error::Io(e)),
    }
}

} // verus!
