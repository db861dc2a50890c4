//! Traversal dispatcher and strategy coordination layer.
//!
//! The dispatcher selects a backend (legacy, Windows optimized, POSIX
//! optimized) from the host and the user's override. Every backend obeys the
//! same rules on depth, filesystem boundaries and hardlinks.

use vstd::prelude::*;

use crate::services::sink::ScanSink;
use crate::text::{ascii_lowercase, chars_eq_str, lowercase_chars};
use crate::ScanOptions;
use detect::{filesystem_kind_of, preferred_strategy, HostOs};
use laws::grown_lawfully;
use parity::{footprint_of_root, shapes};
use rules::extends;
use strategy::supported_on;
use tree::ScanTarget;

pub mod detect;
pub mod fanout;
pub mod laws;
pub mod legacy;
pub mod parity;
pub mod posix;
pub mod progress;
pub mod rules;
pub mod sizes;
pub mod strategy;
pub mod tree;
pub mod windows;

pub use legacy::TraversalContext;

verus! {

/// Enumeration of available traversal strategies.
#[derive(Debug, Clone, Copy, PartialEq, Eq, Structural)]
pub enum StrategyKind {
    /// Portable traversal used as fallback and regression oracle.
    Legacy,
    /// Windows traversal built on large-fetch directory enumeration.
    WindowsOptimized,
    /// POSIX traversal built on directory descriptors.
    PosixOptimized,
}

impl Default for StrategyKind {
    fn default() -> (kind: Self)
        ensures
            kind == StrategyKind::Legacy,
    {
        StrategyKind::Legacy
    }
}

/// The strategy that a label names, whatever the case of its ASCII letters.
pub open spec fn strategy_of_label(label: Seq<char>) -> Option<StrategyKind> {
    let lower = ascii_lowercase(label);
    if lower == "legacy"@ {
        Some(StrategyKind::Legacy)
    } else if lower == "windows"@ || lower == "ntfs"@ {
        Some(StrategyKind::WindowsOptimized)
    } else if lower == "posix"@ || lower == "unix"@ {
        Some(StrategyKind::PosixOptimized)
    } else {
        None
    }
}

impl StrategyKind {
    /// The label under which the strategy is persisted and displayed.
    pub open spec fn label(self) -> Seq<char> {
        match self {
            StrategyKind::Legacy => "legacy"@,
            StrategyKind::WindowsOptimized => "windows"@,
            StrategyKind::PosixOptimized => "posix"@,
        }
    }

    /// The label of the strategy.
    #[must_use]
    pub fn as_str(&self) -> (label: &'static str)
        ensures
            label@ == self.label(),
    {
        match self {
            StrategyKind::Legacy => "legacy",
            StrategyKind::WindowsOptimized => "windows",
            StrategyKind::PosixOptimized => "posix",
        }
    }

    /// The strategy that a label names: legacy; windows or ntfs; posix or
    /// unix; in any case of letters.
    #[must_use]
    pub fn from_label(label: &str) -> (kind: Option<Self>)
        ensures
            kind == strategy_of_label(label@),
    {
        let lower = lowercase_chars(label);
        if chars_eq_str(&lower, "legacy") {
            Some(StrategyKind::Legacy)
        } else if chars_eq_str(&lower, "windows") || chars_eq_str(&lower, "ntfs") {
            Some(StrategyKind::WindowsOptimized)
        } else if chars_eq_str(&lower, "posix") || chars_eq_str(&lower, "unix") {
            Some(StrategyKind::PosixOptimized)
        } else {
            None
        }
    }

    /// The label as an owned string.
    pub fn to_string(&self) -> (label: String)
        ensures
            label@ == self.label(),
    {
        self.as_str().to_owned()
    }
}

impl std::str::FromStr for StrategyKind {
    type Err = String;

    fn from_str(s: &str) -> (r: Result<Self, String>)
        ensures
            match strategy_of_label(s@) {
                Some(kind) => r == Ok::<StrategyKind, String>(kind),
                None => r matches Err(message) && message@ == "unknown strategy '"@ + s@ + "'"@,
            },
    {
        match StrategyKind::from_label(s) {
            Some(kind) => Ok(kind),
            None => Err(unknown_strategy_message(s)),
        }
    }
}

/// The message for a label that names no strategy.
pub fn unknown_strategy_message(label: &str) -> (message: String)
    ensures
        message@ == "unknown strategy '"@ + label@ + "'"@,
{
    crate::text::joined3("unknown strategy '", label, "'")
}

/// A label read back gives the strategy it was written for.
pub proof fn lemma_label_round_trip(kind: StrategyKind)
    ensures
        strategy_of_label(kind.label()) == Some(kind),
{
    reveal_strlit("legacy");
    reveal_strlit("windows");
    reveal_strlit("ntfs");
    reveal_strlit("posix");
    reveal_strlit("unix");
    assert(ascii_lowercase("legacy"@) =~= "legacy"@);
    assert(ascii_lowercase("windows"@) =~= "windows"@);
    assert(ascii_lowercase("posix"@) =~= "posix"@);
    assert("windows"@[0] != "legacy"@[0]);
    assert("posix"@[0] != "legacy"@[0]);
    assert("posix"@[0] != "windows"@[0]);
    assert("posix"@.len() != "ntfs"@.len());
}

/// A strategy where the host supports it, else the legacy strategy.
pub open spec fn supported_or_legacy(kind: StrategyKind, host: HostOs) -> StrategyKind {
    if supported_on(kind, host) {
        kind
    } else {
        StrategyKind::Legacy
    }
}

/// The strategy that runs: the requested one under an explicit override,
/// else the one that the root's filesystem prefers; in both cases the
/// legacy strategy where the host does not support the choice.
pub open spec fn resolved_strategy(
    requested: StrategyKind,
    explicit_override: bool,
    host: HostOs,
    fs_type_name: Option<Seq<char>>,
) -> StrategyKind {
    if explicit_override {
        supported_or_legacy(requested, host)
    } else {
        supported_or_legacy(preferred_strategy(filesystem_kind_of(host, fs_type_name)), host)
    }
}

/// The characters of an optional owned string.
pub open spec fn name_view(name: Option<String>) -> Option<Seq<char>> {
    match name {
        Some(n) => Some(n@),
        None => None,
    }
}

/// What a dispatcher is made of.
pub struct DispatcherView {
    pub strategy: StrategyKind,
    pub explicit_override: bool,
    pub progress_interval_ns: u64,
}

/// Traversal dispatcher responsible for selecting and executing the
/// appropriate strategy.
#[derive(Debug)]
pub struct TraversalDispatcher {
    strategy: StrategyKind,
    explicit_override: bool,
    progress_interval_ns: u64,
}

impl View for TraversalDispatcher {
    type V = DispatcherView;

    closed spec fn view(&self) -> DispatcherView {
        DispatcherView {
            strategy: self.strategy,
            explicit_override: self.explicit_override,
            progress_interval_ns: self.progress_interval_ns,
        }
    }
}

impl Default for TraversalDispatcher {
    fn default() -> (dispatcher: Self)
        ensures
            dispatcher@ == (DispatcherView {
                strategy: StrategyKind::Legacy,
                explicit_override: false,
                progress_interval_ns: progress::DEFAULT_INTERVAL_NS,
            }),
    {
        Self {
            strategy: StrategyKind::Legacy,
            explicit_override: false,
            progress_interval_ns: progress::DEFAULT_INTERVAL_NS,
        }
    }
}

impl TraversalDispatcher {
    /// Construct a dispatcher using the provided strategy kind.
    #[must_use]
    pub fn with_strategy(strategy: StrategyKind, explicit_override: bool) -> (dispatcher: Self)
        ensures
            dispatcher@ == (DispatcherView {
                strategy,
                explicit_override,
                progress_interval_ns: progress::DEFAULT_INTERVAL_NS,
            }),
    {
        Self { strategy, explicit_override, progress_interval_ns: progress::DEFAULT_INTERVAL_NS }
    }

    /// Construct the dispatcher of a scan from its options. An override in
    /// the options is preferred; without one the strategy is chosen from the
    /// filesystem of the root when the traversal starts.
    #[must_use]
    pub fn for_options(opts: &ScanOptions) -> (dispatcher: Self)
        ensures
            dispatcher@ == (DispatcherView {
                strategy: match opts.strategy_override {
                    Some(kind) => kind,
                    None => StrategyKind::Legacy,
                },
                explicit_override: opts.strategy_override is Some,
                progress_interval_ns: opts.progress_interval_ns,
            }),
    {
        match opts.strategy_override {
            Some(kind) => Self {
                strategy: kind,
                explicit_override: true,
                progress_interval_ns: opts.progress_interval_ns,
            },
            None => Self {
                strategy: StrategyKind::Legacy,
                explicit_override: false,
                progress_interval_ns: opts.progress_interval_ns,
            },
        }
    }

    /// Derive the best-fit strategy for the host and the options. An
    /// override in the options is taken as it is; else the strategy is the
    /// one preferred by the filesystem of the working directory, of which
    /// the host names the type (nothing where there is no working directory).
    #[must_use]
    pub fn for_platform(
        opts: &ScanOptions,
        host: HostOs,
        working_dir_fs_type: Option<Option<&str>>,
    ) -> (dispatcher: Self)
        ensures
            dispatcher@ == (DispatcherView {
                strategy: match opts.strategy_override {
                    Some(kind) => kind,
                    None => match working_dir_fs_type {
                        Some(name) => preferred_strategy(
                            filesystem_kind_of(
                                host,
                                match name {
                                    Some(n) => Some(n@),
                                    None => None,
                                },
                            ),
                        ),
                        None => StrategyKind::Legacy,
                    },
                },
                explicit_override: opts.strategy_override is Some,
                progress_interval_ns: opts.progress_interval_ns,
            }),
    {
        if let Some(override_kind) = opts.strategy_override {
            let mut dispatcher = Self::with_strategy(override_kind, true);
            dispatcher.progress_interval_ns = opts.progress_interval_ns;
            return dispatcher;
        }
        let default_strategy = detect::default_strategy(host, working_dir_fs_type);
        let mut dispatcher = Self::with_strategy(default_strategy, false);
        dispatcher.progress_interval_ns = opts.progress_interval_ns;
        dispatcher
    }

    /// Expose the currently selected strategy.
    #[must_use]
    pub fn active_strategy(&self) -> (kind: StrategyKind)
        ensures
            kind == self@.strategy,
    {
        self.strategy
    }

    /// Retrieve the configured progress emission interval, in nanoseconds.
    #[must_use]
    pub fn progress_interval(&self) -> (interval_ns: u64)
        ensures
            interval_ns == self@.progress_interval_ns,
    {
        self.progress_interval_ns
    }

    /// Whether the strategy that was asked for explicitly cannot run on
    /// `host`, so that the legacy strategy runs in its place.
    #[must_use]
    pub fn is_demoted_on(&self, host: HostOs) -> (demoted: bool)
        ensures
            demoted == (self@.explicit_override && !supported_on(self@.strategy, host)),
    {
        self.explicit_override && !strategy::is_supported_on(self.strategy, host)
    }

    /// Resolve the strategy for a root on `host` and put it on record in
    /// the context, together with the host and the progress interval. The
    /// result is the strategy to run.
    pub fn begin<S: ScanSink>(
        &self,
        host: HostOs,
        fs_type_name: Option<&str>,
        context: &mut TraversalContext<S>,
    ) -> (resolved: StrategyKind)
        ensures
            resolved == resolved_strategy(
                self@.strategy,
                self@.explicit_override,
                host,
                match fs_type_name {
                    Some(n) => Some(n@),
                    None => None,
                },
            ),
            final(context).strategy_view() == resolved,
            final(context).host_view() == host,
            final(context).interval_view() == self@.progress_interval_ns,
            final(context).wf() == old(context).wf(),
            final(context).state() == old(context).state(),
            final(context).progress() == old(context).progress(),
            final(context).throttler() == old(context).throttler(),
            final(context).options_view() == old(context).options_view(),
            final(context).max_depth_view() == old(context).max_depth_view(),
            final(context).root_device_view() == old(context).root_device_view(),
            final(context).finalized() == old(context).finalized(),
            final(context).spacing() == old(context).spacing(),
        final(context).spacing() == old(context).spacing(),
            final(context).sink_view() == old(context).sink_view(),
    {
        let resolved = self.resolve_strategy(host, fs_type_name);
        context.set_strategy(resolved);
        context.record_progress_interval(self.progress_interval_ns);
        context.set_host(host);
        resolved
    }

    /// Execute traversal for the supplied target using the resolved
    /// strategy, which is put on record in the context together with the
    /// host and the progress interval.
    pub fn traverse<S: ScanSink>(&self, target: &ScanTarget, context: &mut TraversalContext<S>) -> (r:
        Result<u64, std::io::Error>)
        requires
            old(context).wf(),
        ensures
            r is Ok ==> {
                &&& final(context).wf()
                &&& grown_lawfully(
                    old(context).state(),
                    final(context).state(),
                    final(context).rules(),
                )
                &&& shapes(
                    final(context).state().emitted,
                    old(context).state().emitted.len() as int,
                ) == footprint_of_root(target.root, final(context).rules())
                &&& (r->Ok_0, final(context).state()) == match final(context).strategy_view() {
                    StrategyKind::Legacy => rules::walk_root(
                        target.root,
                        final(context).rules(),
                        old(context).state(),
                    ),
                    _ => rules::fan_root(
                        target.root,
                        final(context).rules(),
                        old(context).state(),
                    ),
                }
            },
            old(context).sink_view().reliable() ==> r is Ok,
            final(context).strategy_view() == resolved_strategy(
                self@.strategy,
                self@.explicit_override,
                target.host,
                name_view(target.fs_type_name),
            ),
            final(context).host_view() == target.host,
            final(context).interval_view() == self@.progress_interval_ns,
            final(context).root_device_view() == match target.root.meta {
                Ok(meta) => legacy::root_device_after(
                    old(context).options_view().cross_filesystem,
                    old(context).root_device_view(),
                    meta.device,
                ),
                Err(_) => old(context).root_device_view(),
            },
            final(context).options_view() == old(context).options_view(),
            final(context).max_depth_view() == old(context).max_depth_view(),
            final(context).finalized() == old(context).finalized(),
            final(context).spacing() == old(context).spacing(),
        final(context).spacing() == old(context).spacing(),
            final(context).sink_view().reliable() == old(context).sink_view().reliable(),
            extends(old(context).progress(), final(context).progress()),
    {
        let fs_type_name = match &target.fs_type_name {
            Some(name) => Some(name.as_str()),
            None => None,
        };
        let resolved = self.begin(target.host, fs_type_name, context);

        match resolved {
            StrategyKind::Legacy => {
                let r = legacy::traverse_directory(&target.root, context);
                proof {
                    laws::lemma_walk_is_lawful(target.root, context.rules(), old(context).state());
                    parity::lemma_walk_gives_the_footprint(
                        target.root,
                        context.rules(),
                        old(context).state(),
                    );
                }
                r
            },
            StrategyKind::WindowsOptimized => {
                let r = fanout::traverse_fanout_root(&target.root, context);
                proof {
                    laws::lemma_fan_walk_is_lawful(
                        target.root,
                        context.rules(),
                        old(context).state(),
                    );
                    parity::lemma_fan_walk_gives_the_footprint(
                        target.root,
                        context.rules(),
                        old(context).state(),
                    );
                }
                r
            },
            StrategyKind::PosixOptimized => {
                let r = fanout::traverse_fanout_root(&target.root, context);
                proof {
                    laws::lemma_fan_walk_is_lawful(
                        target.root,
                        context.rules(),
                        old(context).state(),
                    );
                    parity::lemma_fan_walk_gives_the_footprint(
                        target.root,
                        context.rules(),
                        old(context).state(),
                    );
                }
                r
            },
        }
    }

    /// The strategy that runs for a root on `host` whose filesystem type the
    /// host names `fs_type_name`.
    pub fn resolve_strategy(&self, host: HostOs, fs_type_name: Option<&str>) -> (kind: StrategyKind)
        ensures
            kind == resolved_strategy(
                self@.strategy,
                self@.explicit_override,
                host,
                match fs_type_name {
                    Some(n) => Some(n@),
                    None => None,
                },
            ),
    {
        if self.explicit_override {
            return Self::ensure_supported(self.strategy, host);
        }
        let fs_kind = detect::filesystem_kind_for_path(host, fs_type_name);
        let preferred = detect::strategy_for_filesystem(fs_kind);
        Self::ensure_supported(preferred, host)
    }

    /// A strategy where `host` supports it, else the legacy strategy.
    pub fn ensure_supported(kind: StrategyKind, host: HostOs) -> (supported: StrategyKind)
        ensures
            supported == supported_or_legacy(kind, host),
    {
        match kind {
            StrategyKind::WindowsOptimized => if windows::WindowsTraversal::is_supported(host) {
                StrategyKind::WindowsOptimized
            } else {
                StrategyKind::Legacy
            },
            StrategyKind::PosixOptimized => if posix::PosixTraversal::is_supported(host) {
                StrategyKind::PosixOptimized
            } else {
                StrategyKind::Legacy
            },
            StrategyKind::Legacy => StrategyKind::Legacy,
        }
    }
}

/// Resolution never fails and never picks what the host cannot run.
pub proof fn lemma_resolved_strategy_is_supported(
    requested: StrategyKind,
    explicit_override: bool,
    host: HostOs,
    fs_type_name: Option<Seq<char>>,
)
    ensures
        supported_on(resolved_strategy(requested, explicit_override, host, fs_type_name), host),
{
}

} // verus!
