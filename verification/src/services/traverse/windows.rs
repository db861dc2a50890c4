//! Windows-optimized traversal strategy.
//!
//! The strategy enumerates a directory with one large fetch and hands its
//! subdirectories out once the directory is enumerated. How directories
//! are read is the caller's matter; the order of the walk and its rules
//! are here.

use vstd::prelude::*;

use super::detect::HostOs;
use super::fanout::traverse_fanout_root;
use super::laws::{lemma_fan_walk_is_lawful, lemma_walk_is_lawful};
use super::legacy::{traverse_directory, TraversalContext};
use super::parity::{lemma_fan_walk_gives_the_footprint, lemma_walk_gives_the_footprint};
use super::rules::{fan_root, walk_root};
use super::strategy::{traversed, TraversalStrategy};
use super::tree::FsNode;
use super::StrategyKind;
use crate::services::sink::ScanSink;
use crate::ScanOptions;

verus! {

/// Windows traversal backend.
#[derive(Debug, Clone, Copy)]
pub struct WindowsTraversal;

impl Default for WindowsTraversal {
    fn default() -> Self {
        WindowsTraversal
    }
}

impl WindowsTraversal {
    /// Whether the strategy can run on `host`: on Windows only.
    #[must_use]
    pub fn is_supported(host: HostOs) -> (r: bool)
        ensures
            r == host.is_windows(),
    {
        host.is_windows()
    }
}

impl TraversalStrategy for WindowsTraversal {
    fn kind(&self) -> (kind: StrategyKind)
        ensures
            kind == StrategyKind::WindowsOptimized,
    {
        StrategyKind::WindowsOptimized
    }

    fn is_eligible(&self, _opts: &ScanOptions, host: HostOs) -> (r: bool)
        ensures
            r == host.is_windows(),
    {
        Self::is_supported(host)
    }

    /// On Windows the walk fans out; elsewhere it falls back to the legacy
    /// walk.
    fn traverse<S: ScanSink>(&self, root: &FsNode, context: &mut TraversalContext<S>) -> (r: Result<
        u64,
        std::io::Error,
    >)
        ensures
            traversed(*root, *old(context), *final(context), r),
            r matches Ok(total) ==> (total, final(context).state()) == if old(context).host_view().is_windows() {
                fan_root(*root, final(context).rules(), old(context).state())
            } else {
                walk_root(*root, final(context).rules(), old(context).state())
            },
    {
        if Self::is_supported(context.host()) {
            let r = traverse_fanout_root(root, context);
            proof {
                lemma_fan_walk_is_lawful(*root, context.rules(), old(context).state());
                lemma_fan_walk_gives_the_footprint(*root, context.rules(), old(context).state());
            }
            r
        } else {
            let r = traverse_directory(root, context);
            proof {
                lemma_walk_is_lawful(*root, context.rules(), old(context).state());
                lemma_walk_gives_the_footprint(*root, context.rules(), old(context).state());
            }
            r
        }
    }
}

} // verus!
