//! Strategy trait and registry helpers for filesystem traversal backends.

use vstd::prelude::*;

use super::detect::HostOs;
use super::laws::grown_lawfully;
use super::legacy::TraversalContext;
use super::parity::{footprint_of_root, shapes};
use super::posix::PosixTraversal;
use super::rules::extends;
use super::tree::FsNode;
use super::windows::WindowsTraversal;
use super::StrategyKind;
use crate::services::sink::ScanSink;
use crate::ScanOptions;

verus! {

/// Common interface implemented by filesystem-specific traversal
/// strategies: identity, eligibility, traversal. What a strategy of this
/// crate emits is stated with the strategy; of a strategy written elsewhere
/// nothing is taken for granted.
pub trait TraversalStrategy {
    /// Identify the strategy for logging and diagnostics.
    fn kind(&self) -> StrategyKind;

    /// Determine whether the strategy may run on `host` under the supplied
    /// options.
    fn is_eligible(&self, opts: &ScanOptions, host: HostOs) -> bool;

    /// Execute traversal from the provided root, returning total byte size.
    fn traverse<S: ScanSink>(&self, root: &FsNode, context: &mut TraversalContext<S>) -> (r: Result<
        u64,
        std::io::Error,
    >)
        requires
            old(context).wf(),
    ;
}

/// What holds of a traversal by a strategy of this crate, whatever the
/// order in which it goes through the tree: what it emits respects the
/// depth limit and the filesystem boundary, and has the paths and counts
/// that the tree and the rules give.
pub open spec fn traversed<S: ScanSink>(
    root: FsNode,
    before: TraversalContext<S>,
    after: TraversalContext<S>,
    r: Result<u64, std::io::Error>,
) -> bool {
    &&& r is Ok ==> {
        &&& after.wf()
        &&& grown_lawfully(before.state(), after.state(), after.rules())
        &&& shapes(after.state().emitted, before.state().emitted.len() as int)
            == footprint_of_root(root, after.rules())
    }
    &&& before.sink_view().reliable() ==> r is Ok
    &&& after.options_view() == before.options_view()
    &&& after.max_depth_view() == before.max_depth_view()
    &&& after.interval_view() == before.interval_view()
    &&& after.host_view() == before.host_view()
    &&& after.strategy_view() == before.strategy_view()
    &&& after.finalized() == before.finalized()
    &&& after.spacing() == before.spacing()
    &&& after.sink_view().reliable() == before.sink_view().reliable()
    &&& extends(before.progress(), after.progress())
}

/// Whether the strategy of kind `kind` can run on `host`. The legacy
/// strategy runs everywhere.
pub open spec fn supported_on(kind: StrategyKind, host: HostOs) -> bool {
    match kind {
        StrategyKind::Legacy => true,
        StrategyKind::WindowsOptimized => host.is_windows(),
        StrategyKind::PosixOptimized => host.is_unix(),
    }
}

/// Decide whether the strategy of kind `kind` can run on `host`.
pub fn is_supported_on(kind: StrategyKind, host: HostOs) -> (r: bool)
    ensures
        r == supported_on(kind, host),
{
    match kind {
        StrategyKind::Legacy => true,
        StrategyKind::WindowsOptimized => WindowsTraversal::is_supported(host),
        StrategyKind::PosixOptimized => PosixTraversal::is_supported(host),
    }
}

/// The first of `kinds` that can run on `host`.
pub open spec fn first_supported(kinds: Seq<StrategyKind>, host: HostOs) -> Option<StrategyKind>
    decreases kinds.len(),
{
    if kinds.len() == 0 {
        None
    } else if supported_on(kinds[0], host) {
        Some(kinds[0])
    } else {
        first_supported(kinds.drop_first(), host)
    }
}

/// Registry of the strategies on offer, in order of preference.
pub struct StrategyRegistry {
    strategies: Vec<StrategyKind>,
}

impl View for StrategyRegistry {
    type V = Seq<StrategyKind>;

    closed spec fn view(&self) -> Seq<StrategyKind> {
        self.strategies@
    }
}

impl Default for StrategyRegistry {
    fn default() -> (registry: Self)
        ensures
            registry@ == Seq::<StrategyKind>::empty(),
    {
        StrategyRegistry::new()
    }
}

impl StrategyRegistry {
    /// Construct an empty registry.
    #[must_use]
    pub fn new() -> (registry: Self)
        ensures
            registry@ == Seq::<StrategyKind>::empty(),
    {
        Self { strategies: Vec::new() }
    }

    /// Register a strategy, behind those registered before.
    pub fn register(&mut self, strategy: StrategyKind)
        ensures
            final(self)@ == old(self)@.push(strategy),
    {
        self.strategies.push(strategy);
    }

    /// Select the first eligible strategy.
    #[must_use]
    pub fn select(&self, opts: &ScanOptions, host: HostOs) -> (selected: Option<StrategyKind>)
        ensures
            selected == first_supported(self@, host),
    {
        let mut i: usize = 0;
        assert(self@.skip(0) =~= self@);
        while i < self.strategies.len()
            invariant
                i <= self.strategies.len(),
                first_supported(self@, host) == first_supported(self@.skip(i as int), host),
            decreases self.strategies.len() - i,
        {
            if is_supported_on(self.strategies[i], host) {
                return Some(self.strategies[i]);
            }
            assert(self@.skip(i as int).drop_first() =~= self@.skip(i + 1));
            i += 1;
        }
        None
    }
}

} // verus!
