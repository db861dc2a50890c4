//! Portable traversal: the shared traversal context and the depth-first
//! walk that every other strategy is held against.

use std::collections::HashSet;
use std::time::Instant;
use vstd::prelude::*;
use vstd::std_specs::hash::*;

use super::detect::HostOs;
use super::progress::ProgressThrottler;
use super::rules::{
    after_directory, after_file, attributed_size, children_within_limit, contribution, counts,
    error_item, extends, is_pseudo_entry, normalized, seen_after, verdict, walk_directory,
    walk_item, walk_items, walk_root, with_separator, Emission, Tally, Verdict, WalkRules,
    WalkState,
};
use super::progress::{
    after_consider, emits, estimated_throughput, floor_interval, floor_trigger, least_gap_ns,
    ThrottlerState,
};
use super::tree::{DirItem, FileMeta, FsNode, IoErrorKind, IoFailure, NodeKind};
use super::StrategyKind;
use crate::models::{
    DirectoryEntry, DirectoryEntryView, ErrorItem, ErrorItemView, ProgressSnapshot, SnapshotMeta,
};
use crate::services::sink::memory::MemorySink;
use crate::services::sink::{ScanSink, SinkFinish};
use crate::system::nanos_since;
use crate::text::{chars_of, joined, str_eq, string_of};
use crate::{HardlinkPolicy, ScanOptions, SizeBasis};

verus! {

broadcast use group_hash_axioms;

/// File identifier for hardlink tracking (device, inode).
#[derive(Debug, Clone, Copy, PartialEq, Eq, Structural)]
pub struct FileId {
    pub dev: u64,
    pub ino: u64,
}

/// The single number under which an identity is kept: no two identities
/// share one.
pub open spec fn id_code(id: FileId) -> u128 {
    (id.dev as int * 0x1_0000_0000_0000_0000 + id.ino as int) as u128
}

fn encode_file_id(id: FileId) -> (code: u128)
    ensures
        code == id_code(id),
{
    (id.dev as u128) * 0x1_0000_0000_0000_0000u128 + (id.ino as u128)
}

/// The byte under which a strategy is kept in the context.
pub open spec fn strategy_tag(kind: StrategyKind) -> u8 {
    match kind {
        StrategyKind::Legacy => 0,
        StrategyKind::WindowsOptimized => 1,
        StrategyKind::PosixOptimized => 2,
    }
}

/// The strategy that a tag stands for; an unknown tag stands for legacy.
pub open spec fn strategy_of_tag(tag: u8) -> StrategyKind {
    if tag == 1 {
        StrategyKind::WindowsOptimized
    } else if tag == 2 {
        StrategyKind::PosixOptimized
    } else {
        StrategyKind::Legacy
    }
}

/// The tag of a strategy.
pub fn encode_strategy(kind: StrategyKind) -> (tag: u8)
    ensures
        tag == strategy_tag(kind),
{
    match kind {
        StrategyKind::Legacy => 0,
        StrategyKind::WindowsOptimized => 1,
        StrategyKind::PosixOptimized => 2,
    }
}

/// The strategy of a tag; an unknown tag gives the legacy strategy.
pub fn decode_strategy(value: u8) -> (kind: StrategyKind)
    ensures
        kind == strategy_of_tag(value),
{
    match value {
        1 => StrategyKind::WindowsOptimized,
        2 => StrategyKind::PosixOptimized,
        _ => StrategyKind::Legacy,
    }
}

/// A strategy comes back from its tag.
pub proof fn lemma_strategy_tag_round_trip(kind: StrategyKind)
    ensures
        strategy_of_tag(strategy_tag(kind)) == kind,
{
}

/// Snapshots never go back: each has at least the counters of those before
/// it, and none is ahead of the counters of the scan.
pub open spec fn progress_ordered(events: Seq<ProgressSnapshot>, entries: u64, bytes: u64) -> bool {
    &&& forall|i: int, j: int|
        0 <= i <= j < events.len() ==> events[i].processed_entries <= events[j].processed_entries
            && events[i].processed_bytes <= events[j].processed_bytes
    &&& forall|i: int|
        0 <= i < events.len() ==> events[i].processed_entries <= entries
            && events[i].processed_bytes <= bytes
}

/// Among the snapshots that do not mark completion the count of entries
/// grows from each to the next, until it can grow no more.
pub open spec fn strictly_advancing(events: Seq<ProgressSnapshot>) -> bool {
    forall|i: int, j: int|
        0 <= i < j < events.len() && events[j].estimated_completion_percent is None
            ==> events[i].processed_entries < events[j].processed_entries
            || events[j].processed_entries == u64::MAX
}

/// Every snapshot that does not mark completion comes at least `gap_ms`
/// milliseconds after every snapshot before it.
pub open spec fn spaced(events: Seq<ProgressSnapshot>, gap_ms: u64) -> bool {
    forall|i: int, j: int|
        0 <= i < j < events.len() && events[j].estimated_completion_percent is None
            ==> events[i].timestamp_ms + gap_ms <= events[j].timestamp_ms
}

/// The least time in milliseconds between two emissions of a throttler.
pub open spec fn least_gap_ms(state: ThrottlerState) -> u64 {
    least_gap_ns(state) / 1_000_000
}

/// The least time in milliseconds between two progress snapshots of a scan
/// under `options`.
pub open spec fn configured_gap_ms(options: ScanOptions) -> u64 {
    least_gap_ms(
        ThrottlerState {
            interval_ns: floor_interval(options.progress_interval_ns),
            byte_trigger: floor_trigger(options.progress_byte_trigger),
            last_emit: None,
            last_emit_bytes: 0,
        },
    )
}

/// No snapshot marks completion.
pub open spec fn none_complete(events: Seq<ProgressSnapshot>) -> bool {
    forall|i: int| 0 <= i < events.len() ==> events[i].estimated_completion_percent is None
}

/// Milliseconds in a clock reading of nanoseconds.
pub open spec fn millis_of(now_ns: u64) -> u64 {
    now_ns / 1_000_000
}

/// Traversal context: the state of one scan.
pub struct TraversalContext<S: ScanSink> {
    pub options: ScanOptions,
    pub max_depth: Option<u16>,
    pub progress_interval_ns: u64,
    host: HostOs,
    root_device: Option<u64>,
    seen_inodes: HashSet<u128>,
    sink: S,
    strategy: u8,
    processed_entries: u64,
    processed_bytes: u64,
    progress_events: Vec<ProgressSnapshot>,
    progress_throttler: ProgressThrottler,
    start_instant: Instant,
    finalized: bool,
    emissions: Ghost<Seq<Emission>>,
    failures: Ghost<Seq<ErrorItemView>>,
    spacing_ms: Ghost<u64>,
}

impl<S: ScanSink> TraversalContext<S> {
    /// The consistency of the context: the sink holds what was emitted, and
    /// the progress trace never goes back.
    pub closed spec fn wf(&self) -> bool {
        &&& self.sink.reliable() ==> {
            &&& self.sink.well_formed()
            &&& self.sink.received() == self.emissions@.map_values(|m: Emission| m.entry)
            &&& self.sink.received_errors() == self.failures@
        }
        &&& self.progress_throttler@.valid()
        &&& progress_ordered(
            self.progress_events@,
            self.processed_entries,
            self.processed_bytes,
        )
        &&& strictly_advancing(self.progress_events@)
        &&& self.spacing_ms@ <= least_gap_ms(self.progress_throttler@)
        &&& !self.finalized ==> {
            &&& none_complete(self.progress_events@)
            &&& spaced(self.progress_events@, self.spacing_ms@)
            &&& self.progress_events@.len() > 0 ==> self.progress_throttler@.last_emit is Some
            &&& forall|i: int|
                0 <= i < self.progress_events@.len() && self.progress_throttler@.last_emit
                    is Some ==> (#[trigger] self.progress_events@[i]).timestamp_ms <= millis_of(
                    self.progress_throttler@.last_emit->0,
                )
        }
    }

    /// The options of the scan.
    pub closed spec fn options_view(&self) -> ScanOptions {
        self.options
    }

    /// The greatest depth at which entries are emitted.
    pub closed spec fn max_depth_view(&self) -> Option<u16> {
        self.max_depth
    }

    /// The progress interval on record.
    pub closed spec fn interval_view(&self) -> u64 {
        self.progress_interval_ns
    }

    /// The sink of the scan.
    pub closed spec fn sink_view(&self) -> S {
        self.sink
    }

    /// The host whose path conventions apply.
    pub closed spec fn host_view(&self) -> HostOs {
        self.host
    }

    /// The device of the scan root, once it has been inspected.
    pub closed spec fn root_device_view(&self) -> Option<u64> {
        self.root_device
    }

    /// The strategy on record.
    pub closed spec fn strategy_view(&self) -> StrategyKind {
        strategy_of_tag(self.strategy)
    }

    /// The identities of the files counted so far.
    pub closed spec fn seen(&self) -> Set<FileId> {
        Set::new(|id: FileId| self.seen_inodes@.contains(id_code(id)))
    }

    /// The progress trace so far.
    pub closed spec fn progress(&self) -> Seq<ProgressSnapshot> {
        self.progress_events@
    }

    /// Whether the terminal snapshot has been taken.
    pub closed spec fn finalized(&self) -> bool {
        self.finalized
    }

    /// The least time in milliseconds that has lain between two progress
    /// snapshots of this scan, whatever the interval was changed to.
    pub closed spec fn spacing(&self) -> u64 {
        self.spacing_ms@
    }

    /// The parameters and emission state of the throttler.
    pub closed spec fn throttler(&self) -> super::progress::ThrottlerState {
        self.progress_throttler@
    }

    /// The rules under which entries are walked.
    pub open spec fn rules(&self) -> WalkRules {
        WalkRules {
            basis: self.options_view().basis,
            hardlink_policy: self.options_view().hardlink_policy,
            follow_symlinks: self.options_view().follow_symlinks,
            max_depth: self.max_depth_view(),
            boundary: if self.options_view().cross_filesystem {
                None
            } else {
                self.root_device_view()
            },
            host: self.host_view(),
        }
    }

    /// What walking changes.
    pub closed spec fn state(&self) -> WalkState {
        WalkState {
            seen: self.seen(),
            emitted: self.emissions@,
            errors: self.failures@,
            processed_entries: self.processed_entries,
            processed_bytes: self.processed_bytes,
        }
    }

    /// What a walk leaves alone: the options, the host, the strategy on
    /// record, and whether the scan was finalized.
    pub open spec fn same_setup(&self, other: &Self) -> bool {
        &&& self.options_view() == other.options_view()
        &&& self.max_depth_view() == other.max_depth_view()
        &&& self.interval_view() == other.interval_view()
        &&& self.host_view() == other.host_view()
        &&& self.root_device_view() == other.root_device_view()
        &&& self.strategy_view() == other.strategy_view()
        &&& self.finalized() == other.finalized()
        &&& self.spacing() == other.spacing()
        &&& self.sink_view().reliable() == other.sink_view().reliable()
    }

    /// A well-formed context has an ordered progress trace, and its sink
    /// holds exactly the emitted entries.
    pub proof fn lemma_wf_facts(&self)
        requires
            self.wf(),
        ensures
            progress_ordered(
                self.progress(),
                self.state().processed_entries,
                self.state().processed_bytes,
            ),
            strictly_advancing(self.progress()),
            !self.finalized() ==> none_complete(self.progress()),
            !self.finalized() ==> spaced(self.progress(), self.spacing()),
            self.sink_view().reliable() ==> {
                &&& self.sink_view().well_formed()
                &&& self.sink_view().received() == self.state().emitted.map_values(
                    |m: Emission| m.entry,
                )
                &&& self.sink_view().received_errors() == self.state().errors
            },
            self.throttler().valid(),
    {
    }

    /// Create the context of a scan that hands its output to `sink`.
    #[must_use]
    pub fn with_sink(options: ScanOptions, max_depth: Option<u16>, sink: S) -> (context: Self)
        requires
            sink.reliable() ==> sink.well_formed() && sink.received().len() == 0
                && sink.received_errors().len() == 0,
        ensures
            context.wf(),
            context.options_view() == options,
            context.max_depth_view() == max_depth,
            context.interval_view() == options.progress_interval_ns,
            context.host_view() == HostOs::Other,
            context.root_device_view() == None::<u64>,
            context.strategy_view() == StrategyKind::Legacy,
            !context.finalized(),
            context.progress().len() == 0,
            context.spacing() == configured_gap_ms(options),
            context.sink_view() == sink,
            context.state() == (WalkState {
                seen: Set::empty(),
                emitted: Seq::empty(),
                errors: Seq::empty(),
                processed_entries: 0,
                processed_bytes: 0,
            }),
    {
        let interval = options.progress_interval_ns;
        let trigger = options.progress_byte_trigger;
        let context = Self {
            options,
            max_depth,
            progress_interval_ns: interval,
            host: HostOs::Other,
            root_device: None,
            seen_inodes: HashSet::new(),
            sink,
            strategy: encode_strategy(StrategyKind::Legacy),
            processed_entries: 0,
            processed_bytes: 0,
            progress_events: Vec::new(),
            progress_throttler: ProgressThrottler::with_interval_and_trigger(interval, trigger),
            start_instant: Instant::now(),
            finalized: false,
            emissions: Ghost(Seq::empty()),
            failures: Ghost(Seq::empty()),
            spacing_ms: Ghost(configured_gap_ms(options)),
        };
        assert(context.emissions@.map_values(|m: Emission| m.entry) =~= Seq::<
            DirectoryEntryView,
        >::empty());
        assert(sink.reliable() ==> sink.received() =~= Seq::<DirectoryEntryView>::empty());
        assert(sink.reliable() ==> sink.received_errors() =~= Seq::<ErrorItemView>::empty());
        assert(context.seen() =~= Set::empty());
        context
    }

    /// The strategy on record.
    #[must_use]
    pub fn strategy(&self) -> (kind: StrategyKind)
        ensures
            kind == self.strategy_view(),
    {
        decode_strategy(self.strategy)
    }

    /// Put the strategy that runs on record.
    pub fn set_strategy(&mut self, strategy: StrategyKind)
        ensures
            final(self).strategy_view() == strategy,
            final(self).wf() == old(self).wf(),
            final(self).state() == old(self).state(),
            final(self).progress() == old(self).progress(),
            final(self).throttler() == old(self).throttler(),
            final(self).options_view() == old(self).options_view(),
            final(self).max_depth_view() == old(self).max_depth_view(),
            final(self).interval_view() == old(self).interval_view(),
            final(self).host_view() == old(self).host_view(),
            final(self).root_device_view() == old(self).root_device_view(),
            final(self).finalized() == old(self).finalized(),
            final(self).spacing() == old(self).spacing(),
            final(self).sink_view() == old(self).sink_view(),
    {
        self.strategy = encode_strategy(strategy);
    }

    /// The host whose path conventions apply.
    #[must_use]
    pub fn host(&self) -> (host: HostOs)
        ensures
            host == self.host_view(),
    {
        self.host
    }

    /// Tell the context on which host the scanned paths live.
    pub fn set_host(&mut self, host: HostOs)
        ensures
            final(self).host_view() == host,
            final(self).wf() == old(self).wf(),
            final(self).state() == old(self).state(),
            final(self).progress() == old(self).progress(),
            final(self).throttler() == old(self).throttler(),
            final(self).options_view() == old(self).options_view(),
            final(self).max_depth_view() == old(self).max_depth_view(),
            final(self).interval_view() == old(self).interval_view(),
            final(self).strategy_view() == old(self).strategy_view(),
            final(self).root_device_view() == old(self).root_device_view(),
            final(self).finalized() == old(self).finalized(),
            final(self).spacing() == old(self).spacing(),
            final(self).sink_view() == old(self).sink_view(),
    {
        self.host = host;
    }

    /// Change the progress interval; the byte trigger stays that of the
    /// options, and what the throttler remembers of its last emission stays.
    pub fn update_progress_interval(&mut self, interval_ns: u64)
        requires
            old(self).wf(),
        ensures
            final(self).wf(),
            final(self).interval_view() == interval_ns,
            final(self).spacing() <= old(self).spacing(),
            final(self).spacing() <= least_gap_ms(final(self).throttler()),
            final(self).throttler() == (super::progress::ThrottlerState {
                interval_ns: super::progress::floor_interval(interval_ns),
                byte_trigger: super::progress::floor_trigger(
                    old(self).options_view().progress_byte_trigger,
                ),
                ..old(self).throttler()
            }),
            final(self).state() == old(self).state(),
            final(self).progress() == old(self).progress(),
            final(self).options_view() == old(self).options_view(),
            final(self).max_depth_view() == old(self).max_depth_view(),
            final(self).host_view() == old(self).host_view(),
            final(self).strategy_view() == old(self).strategy_view(),
            final(self).root_device_view() == old(self).root_device_view(),
            final(self).finalized() == old(self).finalized(),
            final(self).sink_view() == old(self).sink_view(),
    {
        self.progress_interval_ns = interval_ns;
        let trigger = self.options.progress_byte_trigger;
        self.progress_throttler.set_interval(interval_ns, trigger);
        let ghost gap = least_gap_ms(self.progress_throttler@);
        self.spacing_ms = Ghost(
            if gap < self.spacing_ms@ {
                gap
            } else {
                self.spacing_ms@
            },
        );
    }

    /// Put the interval of the dispatcher on record. The throttler keeps the
    /// parameters it was made with.
    pub fn record_progress_interval(&mut self, interval_ns: u64)
        ensures
            final(self).interval_view() == interval_ns,
            final(self).wf() == old(self).wf(),
            final(self).state() == old(self).state(),
            final(self).progress() == old(self).progress(),
            final(self).throttler() == old(self).throttler(),
            final(self).options_view() == old(self).options_view(),
            final(self).max_depth_view() == old(self).max_depth_view(),
            final(self).host_view() == old(self).host_view(),
            final(self).strategy_view() == old(self).strategy_view(),
            final(self).root_device_view() == old(self).root_device_view(),
            final(self).finalized() == old(self).finalized(),
            final(self).spacing() == old(self).spacing(),
            final(self).sink_view() == old(self).sink_view(),
    {
        self.progress_interval_ns = interval_ns;
    }

    /// The device of the scan root, once it has been inspected.
    #[must_use]
    pub fn root_device(&self) -> (device: Option<u64>)
        ensures
            device == self.root_device_view(),
    {
        self.root_device
    }

    /// Record the root's device on first inspection. A scan that may cross
    /// filesystems records none.
    pub fn set_root_device_if_absent(&mut self, device: u64)
        ensures
            final(self).root_device_view() == if old(self).options_view().cross_filesystem {
                old(self).root_device_view()
            } else {
                match old(self).root_device_view() {
                    Some(d) => Some(d),
                    None => Some(device),
                }
            },
            final(self).wf() == old(self).wf(),
            final(self).state() == old(self).state(),
            final(self).progress() == old(self).progress(),
            final(self).throttler() == old(self).throttler(),
            final(self).options_view() == old(self).options_view(),
            final(self).max_depth_view() == old(self).max_depth_view(),
            final(self).interval_view() == old(self).interval_view(),
            final(self).host_view() == old(self).host_view(),
            final(self).strategy_view() == old(self).strategy_view(),
            final(self).finalized() == old(self).finalized(),
            final(self).spacing() == old(self).spacing(),
            final(self).sink_view() == old(self).sink_view(),
    {
        if self.options.cross_filesystem {
            return ;
        }
        if self.root_device.is_none() {
            self.root_device = Some(device);
        }
    }

    /// Check whether a file is counted, by the hardlink policy. Under
    /// deduplication the file's identity is remembered.
    pub fn should_count_file(&mut self, meta: &FileMeta) -> (counted: bool)
        ensures
            counted == counts(*meta, old(self).rules(), old(self).state().seen),
            final(self).state() == (WalkState {
                seen: seen_after(*meta, old(self).rules(), old(self).state().seen),
                ..old(self).state()
            }),
            final(self).wf() == old(self).wf(),
            final(self).same_setup(old(self)),
            final(self).sink_view() == old(self).sink_view(),
            final(self).progress() == old(self).progress(),
            final(self).throttler() == old(self).throttler(),
    {
        match self.options.hardlink_policy {
            HardlinkPolicy::Count => true,
            HardlinkPolicy::Dedupe => {
                match meta.file_id {
                    Some(file_id) => {
                        let fresh = self.seen_inodes.insert(encode_file_id(file_id));
                        proof {
                            assert forall|id: FileId| id_code(id) == id_code(file_id) implies id
                                == file_id by {
                                lemma_id_code_is_injective(id, file_id);
                            }
                            assert(self.seen() =~= old(self).seen().insert(file_id));
                        }
                        fresh
                    },
                    None => true,
                }
            },
        }
    }

    /// Get the size of a file under the configured basis.
    pub fn get_size(&self, meta: &FileMeta) -> (size: u64)
        ensures
            size == attributed_size(*meta, self.rules().basis),
    {
        match self.options.basis {
            SizeBasis::Logical => crate::services::size::logical_size(meta),
            SizeBasis::Physical => crate::services::size::physical_size_from_metadata(meta),
        }
    }

    /// Record a failure met during traversal: its class is mapped to the
    /// error code and the record goes to the sink.
    pub fn record_error(&mut self, path: &str, failure: &IoFailure) -> (r: Result<
        (),
        std::io::Error,
    >)
        requires
            old(self).wf(),
        ensures
            r is Ok ==> final(self).wf() && final(self).state() == old(self).state().with_error(
                error_item(path@, *failure),
            ),
            old(self).sink_view().reliable() ==> r is Ok,
            final(self).same_setup(old(self)),
            final(self).progress() == old(self).progress(),
            final(self).throttler() == old(self).throttler(),
    {
        let code = match failure.kind {
            IoErrorKind::NotFound => "ENOENT",
            IoErrorKind::PermissionDenied => "EACCES",
            IoErrorKind::Other => "IO",
        };
        let item = ErrorItem {
            path: path.to_owned(),
            code: code.to_owned(),
            message: failure.message.clone(),
        };
        let ghost view = item@;
        let r = self.sink.record_error(item);
        if r.is_ok() {
            self.failures = Ghost(self.failures@.push(view));
        }
        r
    }

    /// Hand an entry to the sink.
    pub fn insert_entry(&mut self, entry: DirectoryEntry) -> (r: Result<(), std::io::Error>)
        requires
            old(self).wf(),
        ensures
            r is Ok ==> final(self).wf() && final(self).state() == old(self).state().with_emission(
                Emission { entry: entry@, device: None },
            ),
            old(self).sink_view().reliable() ==> r is Ok,
            final(self).same_setup(old(self)),
            final(self).progress() == old(self).progress(),
            final(self).throttler() == old(self).throttler(),
    {
        self.emit_from(entry, Ghost(None))
    }

    fn emit_from(&mut self, entry: DirectoryEntry, Ghost(device): Ghost<Option<u64>>) -> (r: Result<
        (),
        std::io::Error,
    >)
        requires
            old(self).wf(),
        ensures
            r is Ok ==> final(self).wf() && final(self).state() == old(self).state().with_emission(
                Emission { entry: entry@, device },
            ),
            old(self).sink_view().reliable() ==> r is Ok,
            final(self).same_setup(old(self)),
            final(self).progress() == old(self).progress(),
            final(self).throttler() == old(self).throttler(),
    {
        let ghost view = entry@;
        let r = self.sink.record_entry(entry);
        if r.is_ok() {
            self.emissions = Ghost(self.emissions@.push(Emission { entry: view, device }));
            assert(old(self).emissions@.map_values(|m: Emission| m.entry).push(view)
                =~= self.emissions@.map_values(|m: Emission| m.entry));
        }
        r
    }

    /// Provide snapshot metadata to the sink prior to finalization: a
    /// reliable sink holds it from then on. Nothing else changes.
    pub fn set_sink_metadata(&mut self, meta: &SnapshotMeta) -> (r: Result<(), std::io::Error>)
        requires
            old(self).wf(),
        ensures
            r is Ok ==> final(self).wf(),
            final(self).state() == old(self).state(),
            old(self).sink_view().reliable() ==> r is Ok && final(self).sink_view().noted() == Some(
                meta@,
            ),
            final(self).same_setup(old(self)),
            final(self).progress() == old(self).progress(),
            final(self).throttler() == old(self).throttler(),
    {
        self.sink.set_metadata(meta)
    }

    /// Register a processed file with its attributed bytes, at the clock
    /// reading `now_ns`, and consider emitting a snapshot.
    pub fn register_file_progress_at(&mut self, size_bytes: u64, now_ns: u64)
        requires
            old(self).wf(),
        ensures
            final(self).wf(),
            final(self).state() == old(self).state().advanced(size_bytes),
            final(self).progress() == progress_after(
                old(self).throttler(),
                old(self).progress(),
                now_ns,
                final(self).state().processed_entries,
                final(self).state().processed_bytes,
            ),
            final(self).throttler() == after_consider(
                old(self).throttler(),
                now_ns,
                final(self).state().processed_bytes,
            ),
            final(self).same_setup(old(self)),
            final(self).sink_view() == old(self).sink_view(),
    {
        self.advance_and_consider(size_bytes, now_ns);
    }

    /// Register a finalized directory, at the clock reading `now_ns`, and
    /// consider emitting a snapshot.
    pub fn register_directory_progress_at(&mut self, now_ns: u64)
        requires
            old(self).wf(),
        ensures
            final(self).wf(),
            final(self).state() == old(self).state().advanced(0),
            final(self).progress() == progress_after(
                old(self).throttler(),
                old(self).progress(),
                now_ns,
                final(self).state().processed_entries,
                final(self).state().processed_bytes,
            ),
            final(self).throttler() == after_consider(
                old(self).throttler(),
                now_ns,
                final(self).state().processed_bytes,
            ),
            final(self).same_setup(old(self)),
            final(self).sink_view() == old(self).sink_view(),
    {
        self.advance_and_consider(0, now_ns);
    }

    /// Register file progress metrics and consider emitting a snapshot.
    pub fn register_file_progress(&mut self, size_bytes: u64)
        requires
            old(self).wf(),
        ensures
            final(self).wf(),
            final(self).state() == old(self).state().advanced(size_bytes),
            extends(old(self).progress(), final(self).progress()),
            final(self).same_setup(old(self)),
            final(self).sink_view() == old(self).sink_view(),
    {
        let now_ns = self.elapsed_ns();
        self.register_file_progress_at(size_bytes, now_ns);
    }

    /// Register directory progress metrics and consider emitting a snapshot.
    pub fn register_directory_progress(&mut self)
        requires
            old(self).wf(),
        ensures
            final(self).wf(),
            final(self).state() == old(self).state().advanced(0),
            extends(old(self).progress(), final(self).progress()),
            final(self).same_setup(old(self)),
            final(self).sink_view() == old(self).sink_view(),
    {
        let now_ns = self.elapsed_ns();
        self.register_directory_progress_at(now_ns);
    }

    fn advance_and_consider(&mut self, size_bytes: u64, now_ns: u64)
        requires
            old(self).wf(),
        ensures
            final(self).wf(),
            final(self).state() == old(self).state().advanced(size_bytes),
            final(self).progress() == progress_after(
                old(self).throttler(),
                old(self).progress(),
                now_ns,
                final(self).state().processed_entries,
                final(self).state().processed_bytes,
            ),
            final(self).throttler() == after_consider(
                old(self).throttler(),
                now_ns,
                final(self).state().processed_bytes,
            ),
            final(self).same_setup(old(self)),
            final(self).sink_view() == old(self).sink_view(),
    {
        self.processed_entries = self.processed_entries.saturating_add(1);
        self.processed_bytes = self.processed_bytes.saturating_add(size_bytes);
        let elapsed_ms = now_ns / 1_000_000;
        let snapshot = self.progress_throttler.consider(
            now_ns,
            self.processed_bytes,
            self.processed_entries,
            elapsed_ms,
        );
        if let Some(snapshot) = snapshot {
            self.progress_events.push(snapshot);
        }
    }

    /// Whether the terminal snapshot has been taken.
    pub fn is_finalized(&self) -> (done: bool)
        ensures
            done == self.finalized(),
    {
        self.finalized
    }

    /// The progress trace so far.
    pub fn progress_trace(&self) -> (trace: &Vec<ProgressSnapshot>)
        ensures
            trace@ == self.progress(),
    {
        &self.progress_events
    }

    /// Nanoseconds since the scan started, on the monotonic clock.
    pub fn elapsed_ns(&self) -> (ns: u64) {
        nanos_since(&self.start_instant)
    }

    /// Emit the final snapshot, which marks completion, at the clock
    /// reading `now_ns`.
    pub fn finalize_progress_at(&mut self, now_ns: u64)
        requires
            old(self).wf(),
        ensures
            final(self).wf(),
            final(self).finalized(),
            final(self).state() == old(self).state(),
            final(self).progress() == old(self).progress().push(
                ProgressSnapshot {
                    timestamp_ms: millis_of(now_ns),
                    processed_entries: old(self).state().processed_entries,
                    processed_bytes: old(self).state().processed_bytes,
                    estimated_completion_percent: Some(100u8),
                    recent_throughput_bytes_per_sec: estimated_throughput(
                        old(self).throttler(),
                        now_ns,
                        old(self).state().processed_bytes,
                    ),
                },
            ),
            final(self).options_view() == old(self).options_view(),
            final(self).max_depth_view() == old(self).max_depth_view(),
            final(self).interval_view() == old(self).interval_view(),
            final(self).host_view() == old(self).host_view(),
            final(self).root_device_view() == old(self).root_device_view(),
            final(self).strategy_view() == old(self).strategy_view(),
            final(self).spacing() == old(self).spacing(),
            final(self).sink_view() == old(self).sink_view(),
    {
        let elapsed_ms = now_ns / 1_000_000;
        let snapshot = self.progress_throttler.force_emit(
            now_ns,
            self.processed_bytes,
            self.processed_entries,
            elapsed_ms,
        );
        if let Some(snapshot) = snapshot {
            self.progress_events.push(snapshot);
        }
        self.finalized = true;
    }

    /// Emit a final snapshot capturing completion metrics.
    pub fn finalize_progress(&mut self)
        requires
            old(self).wf(),
        ensures
            final(self).wf(),
            final(self).finalized(),
            final(self).state() == old(self).state(),
            final(self).progress().len() == old(self).progress().len() + 1,
            extends(old(self).progress(), final(self).progress()),
            final(self).progress().last().estimated_completion_percent == Some(100u8),
            final(self).progress().last().processed_entries == old(
                self,
            ).state().processed_entries,
            final(self).progress().last().processed_bytes == old(self).state().processed_bytes,
            final(self).options_view() == old(self).options_view(),
            final(self).max_depth_view() == old(self).max_depth_view(),
            final(self).interval_view() == old(self).interval_view(),
            final(self).host_view() == old(self).host_view(),
            final(self).root_device_view() == old(self).root_device_view(),
            final(self).strategy_view() == old(self).strategy_view(),
            final(self).spacing() == old(self).spacing(),
            final(self).sink_view() == old(self).sink_view(),
    {
        let now_ns = self.elapsed_ns();
        self.finalize_progress_at(now_ns);
    }

    /// Take the context apart: the sink, the progress trace and the
    /// strategy that ran.
    #[must_use]
    pub fn into_sink(self) -> (parts: (S, Vec<ProgressSnapshot>, StrategyKind))
        requires
            self.wf(),
        ensures
            parts.0 == self.sink_view(),
            parts.0.reliable() ==> {
                &&& parts.0.well_formed()
                &&& parts.0.received() == self.state().emitted.map_values(|m: Emission| m.entry)
                &&& parts.0.received_errors() == self.state().errors
            },
            parts.1@ == self.progress(),
            parts.2 == self.strategy_view(),
    {
        let strategy = decode_strategy(self.strategy);
        (self.sink, self.progress_events, strategy)
    }

    /// Finish the sink and hand back what it gives, the progress trace and
    /// the strategy that ran.
    pub fn into_parts(self) -> (r: Result<
        (SinkFinish, Vec<ProgressSnapshot>, StrategyKind),
        std::io::Error,
    >)
        requires
            self.wf(),
        ensures
            self.sink_view().reliable() ==> (r matches Ok(parts) && parts.0.entry_count
                == crate::services::sink::counted(self.state().emitted.len())
                && parts.0.errors.deep_view() == self.state().errors),
            r matches Ok(parts) ==> parts.1@ == self.progress() && parts.2 == self.strategy_view(),
    {
        let strategy = decode_strategy(self.strategy);
        let finish = self.sink.finish()?;
        Ok((finish, self.progress_events, strategy))
    }
}

impl TraversalContext<MemorySink> {
    /// Create the context of a scan that keeps its output in memory.
    #[must_use]
    pub fn new(options: ScanOptions, max_depth: Option<u16>) -> (context: Self)
        ensures
            context.wf(),
            context.options_view() == options,
            context.max_depth_view() == max_depth,
            context.interval_view() == options.progress_interval_ns,
            context.host_view() == HostOs::Other,
            context.root_device_view() == None::<u64>,
            context.strategy_view() == StrategyKind::Legacy,
            !context.finalized(),
            context.progress().len() == 0,
            context.spacing() == configured_gap_ms(options),
            context.sink_view().reliable(),
            context.state() == (WalkState {
                seen: Set::empty(),
                emitted: Seq::empty(),
                errors: Seq::empty(),
                processed_entries: 0,
                processed_bytes: 0,
            }),
    {
        TraversalContext::with_sink(options, max_depth, MemorySink::new())
    }
}

/// The characters of an optional string.
pub open spec fn opt_view(s: Option<&str>) -> Option<Seq<char>> {
    match s {
        Some(p) => Some(p@),
        None => None,
    }
}

/// Normalize a path for storage: on Windows every backslash becomes a
/// slash; elsewhere the path is stored as it is.
pub fn normalize_path(path: &str, host: HostOs) -> (stored: String)
    ensures
        stored@ == normalized(path@, host),
{
    if host.is_windows() {
        let chars = chars_of(path);
        let mut out: Vec<char> = Vec::new();
        let mut i: usize = 0;
        while i < chars.len()
            invariant
                i <= chars.len(),
                out@ == normalized(chars@.take(i as int), HostOs::Windows),
            decreases chars.len() - i,
        {
            let c = chars[i];
            out.push(
                if c == '\\' {
                    '/'
                } else {
                    c
                },
            );
            assert(chars@.take(i + 1) =~= chars@.take(i as int).push(chars@[i as int]));
            assert(out@ =~= normalized(chars@.take(i + 1), HostOs::Windows));
            i += 1;
        }
        assert(chars@.take(i as int) =~= chars@);
        string_of(&out)
    } else {
        path.to_owned()
    }
}

/// A stored directory path made ready to take a name behind it.
pub fn directory_prefix(dir: &str) -> (prefix: String)
    ensures
        prefix@ == with_separator(dir@),
{
    let chars = chars_of(dir);
    if chars.len() == 0 || chars[chars.len() - 1] == '/' {
        dir.to_owned()
    } else {
        proof {
            reveal_strlit("/");
            assert("/"@ =~= seq!['/']);
        }
        let prefix = joined(dir, "/");
        assert(prefix@ =~= dir@.push('/'));
        prefix
    }
}

/// The stored path of the entry `name` of the directory whose prefix is
/// `prefix`.
fn stored_child_path(prefix: &str, name: &str, host: HostOs) -> (path: String)
    ensures
        path@ == prefix@ + normalized(name@, host),
{
    if host.is_windows() {
        let stored = normalize_path(name, host);
        joined(prefix, stored.as_str())
    } else {
        joined(prefix, name)
    }
}

/// Whether a name is one of the two pseudo-entries of a raw listing.
pub fn is_pseudo(name: &str) -> (r: bool)
    ensures
        r == is_pseudo_entry(name@),
{
    str_eq(name, ".") || str_eq(name, "..")
}

impl<S: ScanSink> TraversalContext<S> {
    /// The verdict of the rules on an entry with metadata `meta`.
    pub fn verdict_on(&self, meta: &FileMeta) -> (v: Verdict)
        ensures
            v == verdict(*meta, self.rules()),
    {
        if meta.kind == NodeKind::Symlink && !self.options.follow_symlinks {
            return Verdict::Skip;
        }
        if !self.options.cross_filesystem {
            if let Some(root_device) = self.root_device {
                if meta.device != root_device {
                    return Verdict::Skip;
                }
            }
        }
        match meta.kind {
            NodeKind::File => Verdict::File,
            NodeKind::Directory => Verdict::Directory,
            NodeKind::Symlink => Verdict::Skip,
            NodeKind::Other => Verdict::Skip,
        }
    }

    /// Whether the entries of a directory at `depth` are within the depth
    /// limit.
    pub fn allows_children_of(&self, depth: u16) -> (r: bool)
        ensures
            r == children_within_limit(depth, self.rules()),
    {
        depth < u16::MAX && match self.max_depth {
            Some(max) => depth < max,
            None => true,
        }
    }

    /// A directory at `depth`, stored as `dir`, deals with its file `name`.
    /// The result is what the file contributes to the directory.
    pub fn visit_file(&mut self, dir: &str, name: &str, meta: &FileMeta, depth: u16) -> (r: Result<
        u64,
        std::io::Error,
    >)
        requires
            old(self).wf(),
        ensures
            r matches Ok(size) ==> final(self).wf() && size == contribution(
                *meta,
                old(self).rules(),
                old(self).state().seen,
            ) && final(self).state() == after_file(
                dir@,
                name@,
                *meta,
                depth,
                old(self).rules(),
                old(self).state(),
            ),
            old(self).sink_view().reliable() ==> r is Ok,
            final(self).same_setup(old(self)),
            extends(old(self).progress(), final(self).progress()),
    {
        let prefix = directory_prefix(dir);
        self.visit_file_under(dir, prefix.as_str(), name, meta, depth)
    }

    fn visit_file_under(
        &mut self,
        dir: &str,
        prefix: &str,
        name: &str,
        meta: &FileMeta,
        depth: u16,
    ) -> (r: Result<u64, std::io::Error>)
        requires
            old(self).wf(),
            prefix@ == with_separator(dir@),
        ensures
            r matches Ok(size) ==> final(self).wf() && size == contribution(
                *meta,
                old(self).rules(),
                old(self).state().seen,
            ) && final(self).state() == after_file(
                dir@,
                name@,
                *meta,
                depth,
                old(self).rules(),
                old(self).state(),
            ),
            old(self).sink_view().reliable() ==> r is Ok,
            final(self).same_setup(old(self)),
            extends(old(self).progress(), final(self).progress()),
    {
        let size = if self.should_count_file(meta) {
            self.get_size(meta)
        } else {
            0
        };
        self.register_file_progress(size);
        if self.allows_children_of(depth) {
            let entry = DirectoryEntry {
                path: stored_child_path(prefix, name, self.host),
                parent_path: Some(dir.to_owned()),
                depth: depth + 1,
                size_bytes: size,
                file_count: 0,
                dir_count: 0,
            };
            self.emit_from(entry, Ghost(Some(meta.device)))?;
        }
        Ok(size)
    }

    /// A directory has gone through its items: its entry is emitted and
    /// progress advances. The result is the directory's total.
    pub fn finish_directory(
        &mut self,
        path: &str,
        parent: Option<&str>,
        depth: u16,
        device: u64,
        tally: &Tally,
    ) -> (r: Result<u64, std::io::Error>)
        requires
            old(self).wf(),
        ensures
            r matches Ok(total) ==> final(self).wf() && total == tally.total && final(self).state()
                == after_directory(path@, opt_view(parent), depth, device, *tally, old(self).state()),
            old(self).sink_view().reliable() ==> r is Ok,
            final(self).same_setup(old(self)),
            extends(old(self).progress(), final(self).progress()),
    {
        let entry = DirectoryEntry {
            path: path.to_owned(),
            parent_path: match parent {
                Some(p) => Some(p.to_owned()),
                None => None,
            },
            depth,
            size_bytes: tally.total,
            file_count: tally.files,
            dir_count: tally.dirs,
        };
        self.emit_from(entry, Ghost(Some(device)))?;
        self.register_directory_progress();
        Ok(tally.total)
    }
}

/// Walk one item of the directory stored as `dir`, at `depth`.
pub fn traverse_item<S: ScanSink>(
    item: &DirItem,
    dir: &str,
    prefix: &str,
    depth: u16,
    tally: &mut Tally,
    context: &mut TraversalContext<S>,
) -> (r: Result<(), std::io::Error>)
    requires
        old(context).wf(),
        prefix@ == with_separator(dir@),
    ensures
        r is Ok ==> final(context).wf() && (*final(tally), final(context).state()) == walk_item(
            *item,
            dir@,
            depth,
            old(context).rules(),
            *old(tally),
            old(context).state(),
        ),
        old(context).sink_view().reliable() ==> r is Ok,
        final(context).same_setup(old(context)),
        extends(old(context).progress(), final(context).progress()),
    decreases item, 0nat,
{
    match item {
        DirItem::Unreadable(failure) => {
            context.record_error(dir, failure)?;
            Ok(())
        },
        DirItem::Entry(child) => {
            if is_pseudo(child.name.as_str()) {
                return Ok(());
            }
            match &child.meta {
                Err(failure) => {
                    let path = stored_child_path(prefix, child.name.as_str(), context.host());
                    context.record_error(path.as_str(), failure)?;
                    Ok(())
                },
                Ok(meta) => {
                    match context.verdict_on(meta) {
                        Verdict::Skip => Ok(()),
                        Verdict::File => {
                            let size = context.visit_file_under(
                                dir,
                                prefix,
                                child.name.as_str(),
                                meta,
                                depth,
                            )?;
                            tally.add_file(size);
                            Ok(())
                        },
                        Verdict::Directory => {
                            if context.allows_children_of(depth) {
                                let path = stored_child_path(
                                    prefix,
                                    child.name.as_str(),
                                    context.host(),
                                );
                                let sub = traverse_recursive(
                                    child,
                                    path.as_str(),
                                    Some(dir),
                                    depth + 1,
                                    meta.device,
                                    context,
                                )?;
                                tally.add_dir(sub);
                            } else {
                                tally.add_dir(0);
                            }
                            Ok(())
                        },
                    }
                },
            }
        },
    }
}

/// Walk the directory `node`, stored as `path`, depth first: every item
/// in the order of the listing, then the directory's own entry.
pub fn traverse_recursive<S: ScanSink>(
    node: &FsNode,
    path: &str,
    parent: Option<&str>,
    depth: u16,
    device: u64,
    context: &mut TraversalContext<S>,
) -> (r: Result<u64, std::io::Error>)
    requires
        old(context).wf(),
    ensures
        r matches Ok(total) ==> final(context).wf() && (total, final(context).state())
            == walk_directory(
            *node,
            path@,
            opt_view(parent),
            depth,
            device,
            old(context).rules(),
            old(context).state(),
        ),
        old(context).sink_view().reliable() ==> r is Ok,
        final(context).same_setup(old(context)),
        extends(old(context).progress(), final(context).progress()),
    decreases node, 1nat,
{
    match &node.listing {
        Err(failure) => {
            context.record_error(path, failure)?;
            Ok(0)
        },
        Ok(items) => {
            let prefix = directory_prefix(path);
            let mut tally = Tally::new();
            let mut i: usize = 0;
            while i < items.len()
                invariant
                    i <= items.len(),
                    node.listing == Ok::<Vec<DirItem>, IoFailure>(*items),
                    prefix@ == with_separator(path@),
                    context.wf(),
                    context.same_setup(old(context)),
                    extends(old(context).progress(), context.progress()),
                    (tally, context.state()) == walk_items(
                        items@,
                        i as int,
                        path@,
                        depth,
                        old(context).rules(),
                        Tally::zero(),
                        old(context).state(),
                    ),
                decreases items.len() - i,
            {
                let ghost before = context.progress();
                assert(node.listing->Ok_0@[i as int] == items@[i as int]);
                traverse_item(&items[i], path, prefix.as_str(), depth, &mut tally, context)?;
                proof {
                    lemma_extends_is_transitive(old(context).progress(), before, context.progress());
                }
                i += 1;
            }
            let ghost before = context.progress();
            let total = context.finish_directory(path, parent, depth, device, &tally)?;
            proof {
                lemma_extends_is_transitive(old(context).progress(), before, context.progress());
            }
            Ok(total)
        },
    }
}

/// The device on record once a root on `device` has been inspected.
pub open spec fn root_device_after(cross_filesystem: bool, known: Option<u64>, device: u64)
    -> Option<u64> {
    if cross_filesystem {
        known
    } else {
        match known {
            Some(d) => Some(d),
            None => Some(device),
        }
    }
}

/// Traverse a directory tree from its root with the legacy algorithm and
/// hand every record to the context. The result is the total of the root.
pub fn traverse_directory<S: ScanSink>(root: &FsNode, context: &mut TraversalContext<S>) -> (r:
    Result<u64, std::io::Error>)
    requires
        old(context).wf(),
    ensures
        r matches Ok(total) ==> final(context).wf() && (total, final(context).state())
            == walk_root(*root, final(context).rules(), old(context).state()),
        old(context).sink_view().reliable() ==> r is Ok,
        final(context).root_device_view() == match root.meta {
            Ok(meta) => root_device_after(
                old(context).options_view().cross_filesystem,
                old(context).root_device_view(),
                meta.device,
            ),
            Err(_) => old(context).root_device_view(),
        },
        final(context).options_view() == old(context).options_view(),
        final(context).max_depth_view() == old(context).max_depth_view(),
        final(context).interval_view() == old(context).interval_view(),
        final(context).host_view() == old(context).host_view(),
        final(context).strategy_view() == old(context).strategy_view(),
        final(context).finalized() == old(context).finalized(),
        final(context).spacing() == old(context).spacing(),
        final(context).sink_view().reliable() == old(context).sink_view().reliable(),
        extends(old(context).progress(), final(context).progress()),
{
    let path = normalize_path(root.name.as_str(), context.host());
    match &root.meta {
        Err(failure) => {
            context.record_error(path.as_str(), failure)?;
            Ok(0)
        },
        Ok(meta) => {
            context.set_root_device_if_absent(meta.device);
            match context.verdict_on(meta) {
                Verdict::Skip => Ok(0),
                Verdict::File => {
                    let size = if context.should_count_file(meta) {
                        context.get_size(meta)
                    } else {
                        0
                    };
                    Ok(size)
                },
                Verdict::Directory => {
                    let ghost before = context.progress();
                    let total = traverse_recursive(
                        root,
                        path.as_str(),
                        None,
                        0,
                        meta.device,
                        context,
                    )?;
                    proof {
                        lemma_extends_is_transitive(
                            old(context).progress(),
                            before,
                            context.progress(),
                        );
                    }
                    Ok(total)
                },
            }
        },
    }
}

/// What extends an extension of a sequence extends the sequence.
pub proof fn lemma_extends_is_transitive<T>(a: Seq<T>, b: Seq<T>, c: Seq<T>)
    requires
        extends(a, b),
        extends(b, c),
    ensures
        extends(a, c),
{
}

/// The trace after a progress hook ran at `now_ns` with the counters
/// `entries` and `bytes`: one more snapshot where the throttler emits.
pub open spec fn progress_after(
    throttler: ThrottlerState,
    events: Seq<ProgressSnapshot>,
    now_ns: u64,
    entries: u64,
    bytes: u64,
) -> Seq<ProgressSnapshot> {
    if emits(throttler, now_ns, bytes) {
        events.push(
            ProgressSnapshot {
                timestamp_ms: millis_of(now_ns),
                processed_entries: entries,
                processed_bytes: bytes,
                estimated_completion_percent: None,
                recent_throughput_bytes_per_sec: estimated_throughput(throttler, now_ns, bytes),
            },
        )
    } else {
        events
    }
}

/// Two identities with one code are one identity.
pub proof fn lemma_id_code_is_injective(a: FileId, b: FileId)
    requires
        id_code(a) == id_code(b),
    ensures
        a == b,
{
}

} // verus!
